//! Canary files: synthetic tripwires placed in watched directories. Any change to one is a
//! near-certain sign of ransomware.

use rand::RngCore;
use vstd::prelude::*;
use crate::config::CanaryConfig;
use crate::detection::patterns::string_views;
use crate::text::{chars_of, concat_chars, replace, replace_all, string_of};

verus! {

/// Calls `rand::thread_rng().fill_bytes` on 32 bytes. The bytes are random: nothing is
/// claimed of them.
#[verifier::external_body]
fn random_sentinel() -> [u8; 32] {
    let mut sentinel = [0u8; 32];
    rand::thread_rng().fill_bytes(&mut sentinel);
    sentinel
}

/// The canary files placed, each with the 32 random bytes written into it.
pub struct CanaryManager {
    pub sentinels: Vec<(String, [u8; 32])>,
    pub cfg: CanaryConfig,
}

/// The paths of a list of canaries.
pub open spec fn canary_paths_of(s: Seq<(String, [u8; 32])>) -> Seq<Seq<char>> {
    s.map_values(|e: (String, [u8; 32])| e.0@)
}

/// The paths of a list of (path, sentinel) entries.
pub open spec fn entry_paths(e: Seq<(Seq<char>, [u8; 32])>) -> Seq<Seq<char>> {
    e.map_values(|x: (Seq<char>, [u8; 32])| x.0)
}

/// The entries after the canary at `path` is recorded with `sentinel`: an earlier canary
/// at the same path is replaced in place, else the new one is added at the end.
pub open spec fn recorded(e: Seq<(Seq<char>, [u8; 32])>, path: Seq<char>, sentinel: [u8; 32]) -> Seq<
    (Seq<char>, [u8; 32]),
> {
    if entry_paths(e).contains(path) {
        e.update(entry_paths(e).index_of(path), (path, sentinel))
    } else {
        e.push((path, sentinel))
    }
}

impl CanaryManager {
    /// The canaries as (path, sentinel) pairs, in placement order.
    pub open spec fn entries(&self) -> Seq<(Seq<char>, [u8; 32])> {
        self.sentinels@.map_values(|e: (String, [u8; 32])| (e.0@, e.1))
    }

    /// No path holds two canaries.
    pub open spec fn well_formed(&self) -> bool {
        canary_paths_of(self.sentinels@).no_duplicates()
    }

    /// A manager with no canary placed yet.
    pub fn new(cfg: CanaryConfig) -> (r: Self)
        ensures
            r.well_formed(),
            r.entries() == Seq::<(Seq<char>, [u8; 32])>::empty(),
            r.cfg == cfg,
    {
        let r = CanaryManager { sentinels: Vec::new(), cfg };
        assert(r.entries() =~= Seq::<(Seq<char>, [u8; 32])>::empty());
        assert(canary_paths_of(r.sentinels@) =~= Seq::<Seq<char>>::empty());
        r
    }

    /// The paths of the placed canaries.
    pub fn paths(&self) -> (r: Vec<String>)
        ensures
            string_views(r@) == self.entries().map_values(|e: (Seq<char>, [u8; 32])| e.0),
    {
        let mut r: Vec<String> = Vec::new();
        let mut i: usize = 0;
        while i < self.sentinels.len()
            invariant
                i <= self.sentinels@.len(),
                r@.len() == i,
                forall|j: int| 0 <= j < i ==> #[trigger] r@[j]@ == self.sentinels@[j].0@,
            decreases self.sentinels@.len() - i,
        {
            r.push(self.sentinels[i].0.clone());
            i = i + 1;
        }
        assert(string_views(r@) =~= self.entries().map_values(|e: (Seq<char>, [u8; 32])| e.0));
        r
    }

    /// The position of the canary at `path`, if there is one.
    fn position(&self, path: &str) -> (r: Option<usize>)
        ensures
            match r {
                Some(i) => i < self.sentinels@.len() && self.sentinels@[i as int].0@ == path@,
                None => forall|j: int|
                    0 <= j < self.sentinels@.len() ==> self.sentinels@[j].0@ != path@,
            },
    {
        let p = chars_of(path);
        let mut i: usize = 0;
        while i < self.sentinels.len()
            invariant
                i <= self.sentinels@.len(),
                p@ == path@,
                forall|j: int| 0 <= j < i ==> self.sentinels@[j].0@ != path@,
            decreases self.sentinels@.len() - i,
        {
            let c = chars_of(self.sentinels[i].0.as_str());
            if crate::text::same_chars(c.as_slice(), p.as_slice()) {
                return Some(i);
            }
            i = i + 1;
        }
        None
    }

    /// True when a canary is placed at `path`.
    pub fn is_canary(&self, path: &str) -> (r: bool)
        ensures
            r == entry_paths(self.entries()).contains(path@),
    {
        let ghost keys = entry_paths(self.entries());
        match self.position(path) {
            Some(i) => {
                assert(keys[i as int] == path@);
                true
            },
            None => {
                assert forall|j: int| 0 <= j < keys.len() implies keys[j] != path@ by {
                    assert(keys[j] == self.sentinels@[j].0@);
                }
                false
            },
        }
    }

    /// Record the canary written at `path` with `sentinel`, replacing an earlier one there.
    pub fn record(&mut self, path: String, sentinel: [u8; 32])
        requires
            old(self).well_formed(),
        ensures
            final(self).well_formed(),
            final(self).cfg == old(self).cfg,
            final(self).entries() == recorded(old(self).entries(), path@, sentinel),
    {
        let ghost keys = self.entries().map_values(|e: (Seq<char>, [u8; 32])| e.0);
        let ghost old_entries = self.entries();
        let ghost pv = path@;
        assert(keys =~= canary_paths_of(self.sentinels@));
        match self.position(path.as_str()) {
            Some(i) => {
                assert(keys[i as int] == pv);
                assert(keys.index_of(pv) == i) by {
                    assert(keys.contains(pv));
                    let t = keys.index_of(pv);
                    assert(keys[t] == pv);
                }
                self.sentinels.set(i, (path, sentinel));
                assert(self.entries() =~= old_entries.update(i as int, (pv, sentinel)));
                assert(canary_paths_of(self.sentinels@) =~= keys.update(i as int, pv));
                assert(keys.update(i as int, pv) =~= keys);
            },
            None => {
                assert(!keys.contains(pv)) by {
                    if keys.contains(pv) {
                        let t = keys.index_of(pv);
                        assert(keys[t] == self.sentinels@[t].0@);
                    }
                }
                self.sentinels.push((path, sentinel));
                assert(self.entries() =~= old_entries.push((pv, sentinel)));
                assert(canary_paths_of(self.sentinels@) =~= keys.push(pv));
                assert forall|a: int, b: int|
                    0 <= a < keys.len() + 1 && 0 <= b < keys.len() + 1 && a != b implies keys.push(
                    pv,
                )[a] != keys.push(pv)[b] by {
                    if a < keys.len() && b < keys.len() {
                    } else if a < keys.len() {
                        assert(keys.contains(keys[a]));
                    } else if b < keys.len() {
                        assert(keys.contains(keys[b]));
                    }
                }
            },
        }
    }

}

/// A fresh random sentinel for a canary about to be written; it is recorded with `record`
/// once the file holds it. Nothing is known of the bytes.
pub fn draw_sentinel() -> [u8; 32] {
    random_sentinel()
}

/// The paths of the canaries whose content, as read, is missing or not the sentinel.
pub open spec fn tampered_spec(
    entries: Seq<(Seq<char>, [u8; 32])>,
    contents: Seq<Option<Seq<u8>>>,
) -> Seq<Seq<char>>
    decreases entries.len(),
{
    if entries.len() == 0 || contents.len() == 0 {
        Seq::empty()
    } else {
        let rest = tampered_spec(entries.drop_last(), contents.drop_last());
        match contents.last() {
            Some(b) => if b == entries.last().1@ {
                rest
            } else {
                rest.push(entries.last().0)
            },
            None => rest.push(entries.last().0),
        }
    }
}

/// The views of what was read at each canary.
pub open spec fn content_views(c: Seq<Option<Vec<u8>>>) -> Seq<Option<Seq<u8>>> {
    c.map_values(
        |o: Option<Vec<u8>>|
            match o {
                Some(b) => Some(b@),
                None => None,
            },
    )
}

impl CanaryManager {
    /// The canaries found missing or tampered with, given what was read at each canary
    /// path in placement order (`None` where the read failed).
    pub fn tampered(&self, contents: &Vec<Option<Vec<u8>>>) -> (r: Vec<String>)
        requires
            contents@.len() == self.sentinels@.len(),
        ensures
            string_views(r@) == tampered_spec(self.entries(), content_views(contents@)),
    {
        let mut r: Vec<String> = Vec::new();
        let mut i: usize = 0;
        while i < self.sentinels.len()
            invariant
                i <= self.sentinels@.len(),
                contents@.len() == self.sentinels@.len(),
                string_views(r@) == tampered_spec(
                    self.entries().take(i as int),
                    content_views(contents@).take(i as int),
                ),
            decreases self.sentinels@.len() - i,
        {
            let ghost before = string_views(r@);
            assert(self.entries().take(i + 1).drop_last() =~= self.entries().take(i as int));
            assert(content_views(contents@).take(i + 1).drop_last() =~= content_views(
                contents@,
            ).take(i as int));
            let intact = match &contents[i] {
                Some(b) => sentinel_intact(b.as_slice(), &self.sentinels[i].1),
                None => false,
            };
            if !intact {
                r.push(self.sentinels[i].0.clone());
                assert(string_views(r@) =~= before.push(self.sentinels@[i as int].0@));
            }
            i = i + 1;
        }
        assert(self.entries().take(self.sentinels@.len() as int) =~= self.entries());
        assert(content_views(contents@).take(self.sentinels@.len() as int) =~= content_views(
            contents@,
        ));
        r
    }
}

/// `s` with `%KEY%` and then `${KEY}` replaced by the value, for each (key, value) in order.
pub open spec fn expand_vars_spec(s: Seq<char>, vars: Seq<(Seq<char>, Seq<char>)>) -> Seq<char>
    decreases vars.len(),
{
    if vars.len() == 0 {
        s
    } else {
        let prev = expand_vars_spec(s, vars.drop_last());
        let (k, v) = vars.last();
        replace_all(replace_all(prev, seq!['%'] + k + seq!['%'], v), "${"@ + k + "}"@, v)
    }
}

/// Expand environment references `%KEY%` and `${KEY}` in a configured path, over the
/// (key, value) pairs of the environment in order.
pub fn expand_env(s: &str, vars: &[(String, String)]) -> (r: String)
    ensures
        r@ == expand_vars_spec(s@, vars@.map_values(|p: (String, String)| (p.0@, p.1@))),
{
    let ghost vv = vars@.map_values(|p: (String, String)| (p.0@, p.1@));
    let mut out = chars_of(s);
    let pct = chars_of("%");
    let dollar = chars_of("${");
    let close = chars_of("}");
    proof {
        reveal_strlit("%");
        reveal_strlit("${");
        reveal_strlit("}");
    }
    let mut i: usize = 0;
    assert(vv.take(0) =~= Seq::<(Seq<char>, Seq<char>)>::empty());
    while i < vars.len()
        invariant
            i <= vars@.len(),
            vv == vars@.map_values(|p: (String, String)| (p.0@, p.1@)),
            pct@ == seq!['%'],
            dollar@ == "${"@,
            close@ == "}"@,
            "${"@.len() == 2,
            out@ == expand_vars_spec(s@, vv.take(i as int)),
        decreases vars@.len() - i,
    {
        let k = chars_of(vars[i].0.as_str());
        let v = chars_of(vars[i].1.as_str());
        let a = concat_chars(pct.as_slice(), k.as_slice());
        let p1 = concat_chars(a.as_slice(), pct.as_slice());
        let b = concat_chars(dollar.as_slice(), k.as_slice());
        let p2 = concat_chars(b.as_slice(), close.as_slice());
        let o1 = replace(out.as_slice(), p1.as_slice(), v.as_slice());
        out = replace(o1.as_slice(), p2.as_slice(), v.as_slice());
        assert(vv.take(i + 1).drop_last() =~= vv.take(i as int));
        assert(vv.take(i + 1).last() == vv[i as int]);
        i = i + 1;
    }
    assert(vv.take(vars@.len() as int) =~= vv);
    string_of(out.as_slice())
}

/// Whether `bytes` are exactly the sentinel.
pub fn sentinel_intact(bytes: &[u8], sentinel: &[u8; 32]) -> (r: bool)
    ensures
        r == (bytes@ == sentinel@),
{
    if bytes.len() != 32 {
        return false;
    }
    let mut i: usize = 0;
    while i < 32
        invariant
            i <= 32,
            bytes@.len() == 32,
            forall|j: int| 0 <= j < i ==> bytes@[j] == sentinel@[j],
        decreases 32 - i,
    {
        if bytes[i] != sentinel[i] {
            return false;
        }
        i = i + 1;
    }
    assert(bytes@ =~= sentinel@);
    true
}

/// A recorded canary is a canary, with the sentinel it was recorded with; every other
/// canary stays as it was.
pub proof fn lemma_recorded_canary(e: Seq<(Seq<char>, [u8; 32])>, path: Seq<char>, sentinel: [u8; 32])
    ensures
        entry_paths(recorded(e, path, sentinel)).contains(path),
        recorded(e, path, sentinel).contains((path, sentinel)),
        forall|q: Seq<char>|
            q != path ==> (entry_paths(recorded(e, path, sentinel)).contains(q) <==> entry_paths(
                e,
            ).contains(q)),
        forall|i: int|
            0 <= i < e.len() && e[i].0 != path ==> recorded(e, path, sentinel)[i] == e[i],
{
    let r = recorded(e, path, sentinel);
    let k = entry_paths(e);
    if k.contains(path) {
        let t = k.index_of(path);
        assert(r[t] == (path, sentinel));
        assert(entry_paths(r)[t] == path);
        assert forall|q: Seq<char>| q != path implies (entry_paths(r).contains(q) <==> k.contains(q)) by {
            if k.contains(q) {
                let j = k.index_of(q);
                assert(entry_paths(r)[j] == q);
            }
            if entry_paths(r).contains(q) {
                let j = entry_paths(r).index_of(q);
                assert(k[j] == q);
            }
        }
    } else {
        let n = e.len() as int;
        assert(r[n] == (path, sentinel));
        assert(entry_paths(r)[n] == path);
        assert forall|q: Seq<char>| q != path implies (entry_paths(r).contains(q) <==> k.contains(q)) by {
            if k.contains(q) {
                let j = k.index_of(q);
                assert(entry_paths(r)[j] == q);
            }
            if entry_paths(r).contains(q) {
                let j = entry_paths(r).index_of(q);
                assert(k[j] == q);
            }
        }
    }
}

/// Once the canary at `path` is recorded in a manager that had none, `path` is a canary and
/// no other path is.
pub proof fn lemma_single_canary(path: Seq<char>, sentinel: [u8; 32])
    ensures
        forall|q: Seq<char>|
            entry_paths(recorded(Seq::empty(), path, sentinel)).contains(q) <==> q == path,
{
    let e = Seq::<(Seq<char>, [u8; 32])>::empty();
    lemma_recorded_canary(e, path, sentinel);
    assert forall|q: Seq<char>| q != path implies !entry_paths(recorded(e, path, sentinel)).contains(q) by {
        assert(!entry_paths(e).contains(q));
    }
}

/// Canaries read back with their sentinels are not reported.
pub proof fn lemma_intact_not_reported(e: Seq<(Seq<char>, [u8; 32])>, c: Seq<Option<Seq<u8>>>)
    requires
        c.len() == e.len(),
        forall|i: int| 0 <= i < e.len() ==> c[i] == Some(#[trigger] e[i].1@),
    ensures
        tampered_spec(e, c) == Seq::<Seq<char>>::empty(),
    decreases e.len(),
{
    if e.len() > 0 {
        assert forall|i: int| 0 <= i < e.drop_last().len() implies c.drop_last()[i] == Some(
            #[trigger] e.drop_last()[i].1@,
        ) by {
            assert(e.drop_last()[i] == e[i]);
        }
        lemma_intact_not_reported(e.drop_last(), c.drop_last());
        assert(c.last() == Some(e.last().1@));
    }
}

/// A canary that is missing, or reads back other than its sentinel, is reported.
pub proof fn lemma_tampered_reported(e: Seq<(Seq<char>, [u8; 32])>, c: Seq<Option<Seq<u8>>>, i: int)
    requires
        c.len() == e.len(),
        0 <= i < e.len(),
        c[i] != Some(e[i].1@),
    ensures
        tampered_spec(e, c).contains(e[i].0),
    decreases e.len(),
{
    let rest = tampered_spec(e.drop_last(), c.drop_last());
    if i == e.len() - 1 {
        match c.last() {
            Some(b) => {
                assert(b != e.last().1@);
                assert(tampered_spec(e, c) == rest.push(e.last().0));
                assert(rest.push(e.last().0)[rest.len() as int] == e[i].0);
            },
            None => {
                assert(rest.push(e.last().0)[rest.len() as int] == e[i].0);
            },
        }
    } else {
        assert(e.drop_last()[i] == e[i]);
        assert(c.drop_last()[i] == c[i]);
        lemma_tampered_reported(e.drop_last(), c.drop_last(), i);
        let j = rest.index_of(e[i].0);
        match c.last() {
            Some(b) => if b == e.last().1@ {
            } else {
                assert(rest.push(e.last().0)[j] == e[i].0);
            },
            None => {
                assert(rest.push(e.last().0)[j] == e[i].0);
            },
        }
    }
}

/// Whether the canary `e[i]` reads back as something other than its sentinel, or not at all.
pub open spec fn changed_at(e: Seq<(Seq<char>, [u8; 32])>, c: Seq<Option<Seq<u8>>>, i: int) -> bool {
    0 <= i < e.len() && i < c.len() && c[i] != Some(e[i].1@)
}

proof fn lemma_tampered_sound(e: Seq<(Seq<char>, [u8; 32])>, c: Seq<Option<Seq<u8>>>)
    requires
        c.len() == e.len(),
    ensures
        forall|x: Seq<char>|
            #[trigger] tampered_spec(e, c).contains(x) ==> exists|i: int| #[trigger] changed_at(e, c, i) && e[i].0 == x,
        entry_paths(e).no_duplicates() ==> tampered_spec(e, c).no_duplicates(),
    decreases e.len(),
{
    if e.len() > 0 {
        let ed = e.drop_last();
        let cd = c.drop_last();
        lemma_tampered_sound(ed, cd);
        let rest = tampered_spec(ed, cd);
        let t = tampered_spec(e, c);
        let n = e.len() - 1;
        assert forall|i: int| #[trigger] changed_at(ed, cd, i) implies changed_at(e, c, i) && ed[i] == e[i] by {
            assert(ed[i] == e[i] && cd[i] == c[i]);
        }
        assert forall|x: Seq<char>| #[trigger] t.contains(x) implies exists|i: int| #[trigger] changed_at(e, c, i) && e[i].0 == x by {
            if rest.contains(x) {
                let i = choose|i: int| #[trigger] changed_at(ed, cd, i) && ed[i].0 == x;
                assert(changed_at(e, c, i));
            } else {
                let w = choose|w: int| 0 <= w < t.len() && t[w] == x;
                assert(w == rest.len());
                assert(x == e.last().0);
                assert(changed_at(e, c, n));
            }
        }
        if entry_paths(e).no_duplicates() {
            assert(entry_paths(ed) =~= entry_paths(e).drop_last());
            if t != rest {
                assert(t == rest.push(e.last().0));
                assert(!rest.contains(e.last().0)) by {
                    if rest.contains(e.last().0) {
                        let i = choose|i: int| #[trigger] changed_at(ed, cd, i) && ed[i].0 == e.last().0;
                        assert(entry_paths(e)[i] == entry_paths(e)[n]);
                    }
                }
                assert forall|a: int, b: int| 0 <= a < t.len() && 0 <= b < t.len() && a != b implies t[a] != t[b] by {
                    if a < rest.len() && b < rest.len() {
                    } else if a < rest.len() {
                        assert(rest.contains(rest[a]));
                    } else if b < rest.len() {
                        assert(rest.contains(rest[b]));
                    }
                }
            }
        }
    }
}

/// The canaries reported are exactly those that are missing or changed, each once where
/// no path holds two canaries; so none is reported exactly when every canary reads back
/// with its sentinel, as it does right after it is written.
pub proof fn lemma_tampered_exactly(e: Seq<(Seq<char>, [u8; 32])>, c: Seq<Option<Seq<u8>>>)
    requires
        c.len() == e.len(),
        entry_paths(e).no_duplicates(),
    ensures
        tampered_spec(e, c).no_duplicates(),
        forall|x: Seq<char>|
            tampered_spec(e, c).contains(x) <==> exists|i: int| #[trigger] changed_at(e, c, i) && e[i].0 == x,
        tampered_spec(e, c).len() == 0 <==> forall|i: int| 0 <= i < e.len() ==> c[i] == Some(#[trigger] e[i].1@),
{
    lemma_tampered_sound(e, c);
    assert forall|x: Seq<char>| (exists|i: int| #[trigger] changed_at(e, c, i) && e[i].0 == x) implies tampered_spec(e, c).contains(x) by {
        let i = choose|i: int| #[trigger] changed_at(e, c, i) && e[i].0 == x;
        lemma_tampered_reported(e, c, i);
    }
    if forall|i: int| 0 <= i < e.len() ==> c[i] == Some(#[trigger] e[i].1@) {
        lemma_intact_not_reported(e, c);
    } else {
        let i = choose|i: int| !(0 <= i < e.len() ==> c[i] == Some(#[trigger] e[i].1@));
        lemma_tampered_reported(e, c, i);
    }
}

} // verus!
