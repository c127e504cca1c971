//! A minimal `{{variable}}` and `{{#list}}...{{/list}}` template engine.

use vstd::prelude::*;
use crate::detection::patterns::string_views;
use crate::text::{
    chars_of, concat_chars, find, first_match, lemma_absent_pattern, lemma_first_match_bound,
    lemma_first_match_from_props, lemma_no_braces, lemma_replace_all_first, lemma_replace_all_len_lt, occurs_at, replace,
    replace_all, seq_contains, slice_range, string_of,
};

verus! {

/// A template: text with `{{name}}` placeholders and `{{#name}}...{{/name}}` list blocks.
pub struct Template {
    source: String,
}

impl View for Template {
    type V = Seq<char>;

    closed spec fn view(&self) -> Seq<char> {
        self.source@
    }
}

/// The tag that opens the list block `key`.
pub open spec fn open_tag(key: Seq<char>) -> Seq<char> {
    "{{#"@ + key + "}}"@
}

/// The tag that closes the list block `key`.
pub open spec fn close_tag(key: Seq<char>) -> Seq<char> {
    "{{/"@ + key + "}}"@
}

/// The placeholder of the variable `key`.
pub open spec fn var_tag(key: Seq<char>) -> Seq<char> {
    "{{"@ + key + "}}"@
}

/// The body of a list block, once for each item, with `{{item}}` replaced by the item.
pub open spec fn expand_items(inner: Seq<char>, items: Seq<Seq<char>>) -> Seq<char>
    decreases items.len(),
{
    if items.len() == 0 {
        Seq::empty()
    } else {
        expand_items(inner, items.drop_last()) + replace_all(inner, "{{item}}"@, items.last())
    }
}

/// Whether expanding the list block `key` in `out` is defined: when both tags occur, the
/// first closing tag does not begin before the end of the first opening tag.
pub open spec fn list_step_ok(out: Seq<char>, key: Seq<char>) -> bool {
    match (first_match(out, open_tag(key)), first_match(out, close_tag(key))) {
        (Some(st), Some(en)) => st + open_tag(key).len() <= en,
        _ => true,
    }
}

/// `out` with the list block `key` expanded over `items`: the block between the first
/// opening tag and the first closing tag is replaced, wherever it occurs, by the expansion.
pub open spec fn expand_list(out: Seq<char>, key: Seq<char>, items: Seq<Seq<char>>) -> Seq<char> {
    match (first_match(out, open_tag(key)), first_match(out, close_tag(key))) {
        (Some(st), Some(en)) => {
            let inner = out.subrange(st + open_tag(key).len(), en);
            replace_all(out, open_tag(key) + inner + close_tag(key), expand_items(inner, items))
        },
        _ => out,
    }
}

/// The list blocks expanded in order.
pub open spec fn expand_lists(out: Seq<char>, lists: Seq<(Seq<char>, Seq<Seq<char>>)>) -> Seq<
    char,
>
    decreases lists.len(),
{
    if lists.len() == 0 {
        out
    } else {
        expand_list(expand_lists(out, lists.drop_last()), lists.last().0, lists.last().1)
    }
}

/// Whether every list expansion, in order, is defined.
pub open spec fn lists_ok(out: Seq<char>, lists: Seq<(Seq<char>, Seq<Seq<char>>)>) -> bool
    decreases lists.len(),
{
    if lists.len() == 0 {
        true
    } else {
        lists_ok(out, lists.drop_last()) && list_step_ok(
            expand_lists(out, lists.drop_last()),
            lists.last().0,
        )
    }
}

/// The variables substituted in order.
pub open spec fn substitute_vars(out: Seq<char>, vars: Seq<(Seq<char>, Seq<char>)>) -> Seq<char>
    decreases vars.len(),
{
    if vars.len() == 0 {
        out
    } else {
        replace_all(
            substitute_vars(out, vars.drop_last()),
            var_tag(vars.last().0),
            vars.last().1,
        )
    }
}

/// Every remaining `{{...}}` placeholder replaced by a dash, the first one first.
pub open spec fn blank_placeholders(out: Seq<char>) -> Seq<char>
    decreases out.len(),
{
    match first_match(out, "{{"@) {
        None => out,
        Some(st) => match first_match(out.skip(st), "}}"@) {
            None => out,
            Some(e) => {
                proof {
                    reveal_strlit("{{");
                    reveal_strlit("}}");
                    lemma_first_match_bound(out, "{{"@);
                    lemma_first_match_bound(out.skip(st), "}}"@);
                    lemma_placeholder_occurs(out, st, e);
                }
                blank_placeholders(replace_all(out, out.subrange(st, st + e + 2), "—"@))
            },
        },
    }
}

/// A placeholder found by the search occurs where it was found, and removing it shortens
/// the text.
pub proof fn lemma_placeholder_occurs(out: Seq<char>, st: int, e: int)
    requires
        0 <= st,
        0 <= e,
        st + e + 2 <= out.len(),
    ensures
        replace_all(out, out.subrange(st, st + e + 2), "—"@).len() < out.len(),
{
    reveal_strlit("—");
    assert(occurs_at(out, out.subrange(st, st + e + 2), st));
    lemma_replace_all_len_lt(out, out.subrange(st, st + e + 2), "—"@, st);
}

/// The text a template renders to.
pub open spec fn render_spec(
    source: Seq<char>,
    vars: Seq<(Seq<char>, Seq<char>)>,
    lists: Seq<(Seq<char>, Seq<Seq<char>>)>,
) -> Seq<char> {
    blank_placeholders(substitute_vars(expand_lists(source, lists), vars))
}

/// No `{{` is followed, at or after it, by a `}}`.
pub open spec fn no_open_placeholder(s: Seq<char>) -> bool {
    forall|i: int, j: int|
        #![trigger occurs_at(s, "{{"@, i), occurs_at(s, "}}"@, j)]
        occurs_at(s, "{{"@, i) && i <= j ==> !occurs_at(s, "}}"@, j)
}

proof fn lemma_plain_lists(out: Seq<char>, lists: Seq<(Seq<char>, Seq<Seq<char>>)>)
    requires
        !seq_contains(out, "{{"@),
    ensures
        expand_lists(out, lists) == out,
        lists_ok(out, lists),
    decreases lists.len(),
{
    reveal_strlit("{{#");
    if lists.len() > 0 {
        lemma_plain_lists(out, lists.drop_last());
        let key = lists.last().0;
        assert(open_tag(key)[0] == '{' && open_tag(key)[1] == '{');
        lemma_no_braces(out, open_tag(key));
        lemma_absent_pattern(out, open_tag(key), Seq::empty());
    }
}

proof fn lemma_plain_vars(out: Seq<char>, vars: Seq<(Seq<char>, Seq<char>)>)
    requires
        !seq_contains(out, "{{"@),
    ensures
        substitute_vars(out, vars) == out,
    decreases vars.len(),
{
    reveal_strlit("{{");
    if vars.len() > 0 {
        lemma_plain_vars(out, vars.drop_last());
        let tag = var_tag(vars.last().0);
        assert(tag[0] == '{' && tag[1] == '{');
        lemma_no_braces(out, tag);
        lemma_absent_pattern(out, tag, vars.last().1);
    }
}

/// The expansion of a list block over items is one copy of the body per item, in order,
/// each with `{{item}}` replaced by that item: nothing for no items, one copy for one item,
/// and the copies of two lists of items one after the other for their concatenation.
pub proof fn lemma_expand_items(inner: Seq<char>, a: Seq<Seq<char>>, b: Seq<Seq<char>>, x: Seq<char>)
    ensures
        expand_items(inner, Seq::empty()) == Seq::<char>::empty(),
        expand_items(inner, seq![x]) == replace_all(inner, "{{item}}"@, x),
        expand_items(inner, a + b) == expand_items(inner, a) + expand_items(inner, b),
    decreases b.len(),
{
    assert(seq![x].drop_last() =~= Seq::<Seq<char>>::empty());
    assert(seq![x].last() == x);
    assert(expand_items(inner, Seq::<Seq<char>>::empty()) == Seq::<char>::empty());
    assert(expand_items(inner, seq![x]) == expand_items(inner, seq![x].drop_last()) + replace_all(
        inner,
        "{{item}}"@,
        seq![x].last(),
    ));
    assert(Seq::<char>::empty() + replace_all(inner, "{{item}}"@, x) =~= replace_all(inner, "{{item}}"@, x));
    if b.len() == 0 {
        assert(a + b =~= a);
        assert(expand_items(inner, a) + Seq::<char>::empty() =~= expand_items(inner, a));
    } else {
        lemma_expand_items(inner, a, b.drop_last(), x);
        assert((a + b).drop_last() =~= a + b.drop_last());
        assert((a + b).last() == b.last());
    }
}

/// Expanding a list block whose tags both occur (the first closing tag after the first
/// opening one) replaces the block, from its opening tag to its closing tag, by one copy of
/// its body per item: the text before the block stays, and the rest is expanded in the same
/// way. For no items the block disappears.
pub proof fn lemma_list_block_expanded(out: Seq<char>, key: Seq<char>, items: Seq<Seq<char>>, st: int, en: int)
    requires
        first_match(out, open_tag(key)) == Some(st),
        first_match(out, close_tag(key)) == Some(en),
        st + open_tag(key).len() <= en,
    ensures
        ({
            let inner = out.subrange(st + open_tag(key).len(), en);
            let block = open_tag(key) + inner + close_tag(key);
            let rest = out.skip(en + close_tag(key).len());
            &&& expand_list(out, key, items) == out.take(st) + expand_items(inner, items) + replace_all(
                rest,
                block,
                expand_items(inner, items),
            )
            &&& items.len() == 0 ==> expand_list(out, key, items) == out.take(st) + replace_all(
                rest,
                block,
                Seq::empty(),
            )
        }),
{
    reveal_strlit("{{#");
    reveal_strlit("}}");
    let open = open_tag(key);
    let close = close_tag(key);
    let inner = out.subrange(st + open.len(), en);
    let block = open + inner + close;
    lemma_first_match_from_props(out, open, 0);
    lemma_first_match_from_props(out, close, 0);
    assert(out.subrange(st, en + close.len()) =~= block) by {
        assert(out.subrange(st, st + open.len()) =~= open);
        assert(out.subrange(en, en + close.len()) =~= close);
    }
    assert(occurs_at(out, block, st));
    assert forall|j: int| 0 <= j < st implies !occurs_at(out, block, j) by {
        if occurs_at(out, block, j) {
            assert(out.subrange(j, j + open.len()) =~= block.subrange(0, open.len() as int));
            assert(block.subrange(0, open.len() as int) =~= open);
            assert(occurs_at(out, open, j));
        }
    }
    lemma_replace_all_first(out, block, expand_items(inner, items), st);
    if items.len() == 0 {
        assert(expand_items(inner, items) == Seq::<char>::empty());
        assert(out.take(st) + Seq::<char>::empty() =~= out.take(st));
    }
}

/// A text without `{{` holds no placeholder and no list block: whatever the variables and
/// lists, every list expansion is defined and the template renders to the text itself.
pub proof fn lemma_plain_text_renders_to_itself(
    source: Seq<char>,
    vars: Seq<(Seq<char>, Seq<char>)>,
    lists: Seq<(Seq<char>, Seq<Seq<char>>)>,
)
    requires
        !seq_contains(source, "{{"@),
    ensures
        lists_ok(source, lists),
        render_spec(source, vars, lists) == source,
{
    lemma_plain_lists(source, lists);
    lemma_plain_vars(source, vars);
    lemma_absent_pattern(source, "{{"@, Seq::empty());
}

/// The views of variable bindings.
pub open spec fn var_views(vars: Seq<(&str, String)>) -> Seq<(Seq<char>, Seq<char>)> {
    vars.map_values(|p: (&str, String)| (p.0@, p.1@))
}

/// The views of list bindings.
pub open spec fn list_views(lists: Seq<(&str, Vec<String>)>) -> Seq<(Seq<char>, Seq<Seq<char>>)> {
    lists.map_values(|p: (&str, Vec<String>)| (p.0@, string_views(p.1@)))
}

fn tag(prefix: &str, key: &[char], suffix: &str) -> (r: Vec<char>)
    ensures
        r@ == prefix@ + key@ + suffix@,
{
    let p = chars_of(prefix);
    let s = chars_of(suffix);
    let a = concat_chars(p.as_slice(), key);
    concat_chars(a.as_slice(), s.as_slice())
}

fn expand_items_exec(inner: &[char], items: &Vec<String>) -> (r: Vec<char>)
    ensures
        r@ == expand_items(inner@, string_views(items@)),
{
    let item_tag = chars_of("{{item}}");
    proof {
        reveal_strlit("{{item}}");
    }
    let mut out: Vec<char> = Vec::new();
    let mut i: usize = 0;
    while i < items.len()
        invariant
            i <= items@.len(),
            item_tag@ == "{{item}}"@,
            item_tag@.len() > 0,
            out@ == expand_items(inner@, string_views(items@.take(i as int))),
        decreases items@.len() - i,
    {
        let item = chars_of(items[i].as_str());
        let part = replace(inner, item_tag.as_slice(), item.as_slice());
        out = concat_chars(out.as_slice(), part.as_slice());
        assert(string_views(items@.take(i + 1)).drop_last() =~= string_views(items@.take(i as int)));
        i = i + 1;
    }
    assert(items@.take(items@.len() as int) =~= items@);
    out
}

fn expand_list_exec(out: Vec<char>, key: &str, items: &Vec<String>) -> (r: Vec<char>)
    requires
        list_step_ok(out@, key@),
    ensures
        r@ == expand_list(out@, key@, string_views(items@)),
{
    let k = chars_of(key);
    let open = tag("{{#", k.as_slice(), "}}");
    let close = tag("{{/", k.as_slice(), "}}");
    proof {
        reveal_strlit("{{#");
        reveal_strlit("{{/");
        reveal_strlit("}}");
    }
    match (find(out.as_slice(), open.as_slice()), find(out.as_slice(), close.as_slice())) {
        (Some(st), Some(en)) => {
            proof {
                lemma_first_match_bound(out@, open@);
                lemma_first_match_bound(out@, close@);
            }
            let bs = st + open.len();
            let inner = slice_range(out.as_slice(), bs, en);
            let expanded = expand_items_exec(inner.as_slice(), items);
            let a = concat_chars(open.as_slice(), inner.as_slice());
            let full = concat_chars(a.as_slice(), close.as_slice());
            replace(out.as_slice(), full.as_slice(), expanded.as_slice())
        },
        _ => out,
    }
}

fn blank_placeholders_exec(text: Vec<char>) -> (r: Vec<char>)
    ensures
        r@ == blank_placeholders(text@),
        no_open_placeholder(r@),
{
    let opener = chars_of("{{");
    let closer = chars_of("}}");
    let dash = chars_of("—");
    proof {
        reveal_strlit("{{");
        reveal_strlit("}}");
        reveal_strlit("—");
    }
    let ghost target = blank_placeholders(text@);
    let mut out = text;
    loop
        invariant
            target == blank_placeholders(text@),
            opener@ == "{{"@,
            closer@ == "}}"@,
            dash@ == "—"@,
            blank_placeholders(out@) == target,
        decreases out@.len(),
    {
        match find(out.as_slice(), opener.as_slice()) {
            None => {
                proof {
                    lemma_first_match_from_props(out@, "{{"@, 0);
                    assert(blank_placeholders(out@) == out@);
                }
                return out;
            },
            Some(st) => {
                proof {
                    lemma_first_match_bound(out@, "{{"@);
                    lemma_first_match_from_props(out@, "{{"@, 0);
                }
                let rest = slice_range(out.as_slice(), st, out.len());
                assert(rest@ =~= out@.skip(st as int));
                match find(rest.as_slice(), closer.as_slice()) {
                    None => {
                        proof {
                            assert(blank_placeholders(out@) == out@);
                            lemma_first_match_from_props(rest@, "}}"@, 0);
                            assert forall|i: int, j: int|
                                occurs_at(out@, "{{"@, i) && i <= j implies !occurs_at(
                                out@,
                                "}}"@,
                                j,
                            ) by {
                                reveal_strlit("}}");
                                reveal_strlit("{{");
                                if occurs_at(out@, "}}"@, j) {
                                    assert(st <= i);
                                    assert(rest@.subrange(j - st, j - st + 2) =~= out@.subrange(
                                        j,
                                        j + 2,
                                    ));
                                    assert(occurs_at(rest@, "}}"@, j - st));
                                }
                            }
                        }
                        return out;
                    },
                    Some(e) => {
                        proof {
                            reveal_strlit("}}");
                            lemma_first_match_bound(rest@, "}}"@);
                            lemma_placeholder_occurs(out@, st as int, e as int);
                        }
                        let ph = slice_range(out.as_slice(), st, st + e + 2);
                        out = replace(out.as_slice(), ph.as_slice(), dash.as_slice());
                    },
                }
            },
        }
    }
}

/// The text of the incident report template.
pub const INCIDENT_REPORT_TEMPLATE: &'static str = "# AegisOne Incident Report\n\n| Field | Value |\n|-------|-------|\n| Incident ID | `{{incident_id}}` |\n| Generated | {{generated_at}} |\n| Agent version | {{agent_version}} |\n| Started | {{started_at}} |\n| Closed | {{closed_at}} |\n| Peak threat level | **{{peak_level}}** |\n| Final score | {{final_score}} |\n| Files affected | {{affected_count}} |\n| Primary process | {{primary_process}} |\n\n{{ai_narrative}}\n\n## Timeline\n\n{{timeline}}\n\n## Affected files\n\n{{affected_files}}\n\n## Actions taken\n\n{{actions_taken}}\n\n## Raw incident data\n\n```json\n{{incident_json}}\n```\n";

impl Template {
    /// A template over the text `source`.
    pub fn new(source: &str) -> (t: Self)
        ensures
            t@ == source@,
    {
        let v = chars_of(source);
        Template { source: string_of(v.as_slice()) }
    }

    /// The embedded incident report template.
    pub fn incident_report() -> (t: Self)
        ensures
            t@ == INCIDENT_REPORT_TEMPLATE@,
    {
        Template::new(INCIDENT_REPORT_TEMPLATE)
    }

    /// Render the template: expand the list blocks of `lists` in order, then substitute the
    /// variables of `vars` in order, then blank every remaining placeholder with a dash.
    pub fn render(&self, vars: &[(&str, String)], lists: &[(&str, Vec<String>)]) -> (r: String)
        requires
            lists_ok(self@, list_views(lists@)),
        ensures
            r@ == render_spec(self@, var_views(vars@), list_views(lists@)),
            no_open_placeholder(r@),
    {
        let mut out = chars_of(self.source.as_str());
        let mut i: usize = 0;
        while i < lists.len()
            invariant
                i <= lists@.len(),
                lists_ok(self@, list_views(lists@)),
                out@ == expand_lists(self@, list_views(lists@.take(i as int))),
            decreases lists@.len() - i,
        {
            proof {
                lemma_lists_ok_prefix(self@, list_views(lists@), i + 1);
                assert(list_views(lists@).take(i + 1) =~= list_views(lists@.take(i + 1)));
                assert(list_views(lists@.take(i + 1)).drop_last() =~= list_views(
                    lists@.take(i as int),
                ));
            }
            let (key, items) = &lists[i];
            out = expand_list_exec(out, key, items);
            i = i + 1;
        }
        assert(lists@.take(lists@.len() as int) =~= lists@);
        let mut k: usize = 0;
        let ghost listed = out@;
        assert(var_views(vars@.take(0)) =~= Seq::<(Seq<char>, Seq<char>)>::empty());
        while k < vars.len()
            invariant
                k <= vars@.len(),
                out@ == substitute_vars(listed, var_views(vars@.take(k as int))),
            decreases vars@.len() - k,
        {
            let (key, value) = &vars[k];
            let kc = chars_of(key);
            let placeholder = tag("{{", kc.as_slice(), "}}");
            proof {
                reveal_strlit("{{");
            }
            let vc = chars_of(value.as_str());
            out = replace(out.as_slice(), placeholder.as_slice(), vc.as_slice());
            assert(var_views(vars@.take(k + 1)).drop_last() =~= var_views(vars@.take(k as int)));
            k = k + 1;
        }
        assert(vars@.take(vars@.len() as int) =~= vars@);
        let done = blank_placeholders_exec(out);
        string_of(done.as_slice())
    }
}

/// A prefix of an admissible list sequence is admissible.
proof fn lemma_lists_ok_prefix(out: Seq<char>, lists: Seq<(Seq<char>, Seq<Seq<char>>)>, n: int)
    requires
        lists_ok(out, lists),
        0 <= n <= lists.len(),
    ensures
        lists_ok(out, lists.take(n)),
    decreases lists.len() - n,
{
    if n < lists.len() {
        assert(lists.drop_last().take(n) =~= lists.take(n));
        lemma_lists_ok_prefix(out, lists.drop_last(), n);
    } else {
        assert(lists.take(n) =~= lists);
    }
}

} // verus!
