//! Name and command-line indicators of ransomware activity.

use vstd::prelude::*;
use crate::text::{
    ascii_lower, ascii_upper, chars_of, contains, is_ascii_text, lemma_contains_in_context, same_chars,
    seq_contains, str_lowercase, str_uppercase, string_of, to_lowercase, to_uppercase,
    trim_start_char, trim_start_char_spec,
};

verus! {

/// The characters of each string of `v`.
pub open spec fn str_views(v: Seq<&str>) -> Seq<Seq<char>> {
    v.map_values(|s: &str| s@)
}

/// The characters of each string of `v`.
pub open spec fn string_views(v: Seq<String>) -> Seq<Seq<char>> {
    v.map_values(|s: String| s@)
}

/// File extensions (lowercase, with the dot) that ransomware families give to encrypted files.
pub open spec fn known_ransomware_extensions() -> Seq<Seq<char>> {
    seq![
        ".locked"@, ".encrypted"@, ".crypt"@, ".enc"@, ".ryk"@, ".ryuk"@, ".clop"@, ".ransom"@,
        ".pay2me"@, ".wcry"@, ".wncry"@, ".wncryt"@, ".lck"@, ".cerber"@, ".cerber2"@,
        ".cerber3"@, ".locky"@, ".zepto"@, ".odin"@, ".aesir"@, ".shit"@, ".thor"@, ".micro"@,
        ".cryptolocker"@, ".cryptowall"@, ".crypz"@, ".cryp1"@, ".darkness"@, ".breaking_bad"@,
        ".ecc"@, ".ezz"@, ".exx"@, ".vvv"@, ".abc"@, ".xyz"@, ".zzz"@, ".aaa"@, ".bbb"@, ".ccc"@,
        ".porno"@, ".btc"@, ".encoderpass"@, ".magic"@, ".revenge"@, ".wallet"@, ".onion"@,
        ".777"@,
    ]
}

fn ransomware_extension_table() -> (r: Vec<&'static str>)
    ensures
        str_views(r@) == known_ransomware_extensions(),
{
    let v = vec![
        ".locked", ".encrypted", ".crypt", ".enc", ".ryk", ".ryuk", ".clop", ".ransom",
        ".pay2me", ".wcry", ".wncry", ".wncryt", ".lck", ".cerber", ".cerber2", ".cerber3",
        ".locky", ".zepto", ".odin", ".aesir", ".shit", ".thor", ".micro", ".cryptolocker",
        ".cryptowall", ".crypz", ".cryp1", ".darkness", ".breaking_bad", ".ecc", ".ezz", ".exx",
        ".vvv", ".abc", ".xyz", ".zzz", ".aaa", ".bbb", ".ccc", ".porno", ".btc", ".encoderpass",
        ".magic", ".revenge", ".wallet", ".onion", ".777",
    ];
    assert(str_views(v@) =~= known_ransomware_extensions());
    v
}

/// File names that ransomware families leave behind as ransom notes.
pub open spec fn known_ransom_notes() -> Seq<Seq<char>> {
    seq![
        "README.txt"@, "DECRYPT.txt"@, "DECRYPT_INSTRUCTIONS.txt"@, "HOW_TO_RECOVER.txt"@,
        "HOW_TO_DECRYPT.txt"@, "HOW_TO_BUY.txt"@, "RECOVERY.txt"@, "READ_ME.txt"@,
        "HELP_DECRYPT.txt"@, "HELP_TO_SAVE_FILES.txt"@, "YOUR_FILES_ARE_ENCRYPTED.txt"@,
        "RANSOM_NOTE.txt"@, "!!!RESTORE_FILES!!!.txt"@, "!!! README !!!.txt"@,
        "_RECOVER_INSTRUCTIONS.txt"@, "@DECRYPT.txt"@, "@PLEASE_READ_ME@.txt"@,
        "WannaDecryptor.exe"@, "WanaDecryptor.exe"@, "@WanaDecryptor@.exe"@,
        "DECRYPT_INSTRUCTION.HTML"@, "HELP_RESTORE_FILES.txt"@,
    ]
}

fn ransom_note_table() -> (r: Vec<&'static str>)
    ensures
        str_views(r@) == known_ransom_notes(),
{
    let v = vec![
        "README.txt", "DECRYPT.txt", "DECRYPT_INSTRUCTIONS.txt", "HOW_TO_RECOVER.txt",
        "HOW_TO_DECRYPT.txt", "HOW_TO_BUY.txt", "RECOVERY.txt", "READ_ME.txt",
        "HELP_DECRYPT.txt", "HELP_TO_SAVE_FILES.txt", "YOUR_FILES_ARE_ENCRYPTED.txt",
        "RANSOM_NOTE.txt", "!!!RESTORE_FILES!!!.txt", "!!! README !!!.txt",
        "_RECOVER_INSTRUCTIONS.txt", "@DECRYPT.txt", "@PLEASE_READ_ME@.txt", "WannaDecryptor.exe",
        "WanaDecryptor.exe", "@WanaDecryptor@.exe", "DECRYPT_INSTRUCTION.HTML",
        "HELP_RESTORE_FILES.txt",
    ];
    assert(str_views(v@) =~= known_ransom_notes());
    v
}

/// Extensions of ordinary files, which never count as randomly generated.
pub open spec fn legitimate_extensions() -> Seq<Seq<char>> {
    seq![
        "txt"@, "doc"@, "docx"@, "xls"@, "xlsx"@, "pdf"@, "ppt"@, "pptx"@, "jpg"@, "jpeg"@,
        "png"@, "gif"@, "bmp"@, "tiff"@, "mp3"@, "mp4"@, "wav"@, "avi"@, "mkv"@, "zip"@, "rar"@,
        "7z"@, "gz"@, "tar"@, "exe"@, "dll"@, "sys"@, "bat"@, "cmd"@, "ps1"@, "html"@, "htm"@,
        "css"@, "js"@, "ts"@, "json"@, "xml"@, "yaml"@, "toml"@, "rs"@, "py"@, "go"@, "java"@,
        "cpp"@, "c"@, "h"@, "csv"@, "log"@, "cfg"@, "ini"@, "bak"@, "tmp"@, "lock"@,
    ]
}

fn legitimate_extension_table() -> (r: Vec<&'static str>)
    ensures
        str_views(r@) == legitimate_extensions(),
{
    let v = vec![
        "txt", "doc", "docx", "xls", "xlsx", "pdf", "ppt", "pptx", "jpg", "jpeg", "png", "gif",
        "bmp", "tiff", "mp3", "mp4", "wav", "avi", "mkv", "zip", "rar", "7z", "gz", "tar", "exe",
        "dll", "sys", "bat", "cmd", "ps1", "html", "htm", "css", "js", "ts", "json", "xml",
        "yaml", "toml", "rs", "py", "go", "java", "cpp", "c", "h", "csv", "log", "cfg", "ini",
        "bak", "tmp", "lock",
    ];
    assert(str_views(v@) =~= legitimate_extensions());
    v
}

/// Whether some string of `table` holds exactly the characters `s`.
fn table_contains(table: &Vec<&'static str>, s: &[char]) -> (r: bool)
    ensures
        r == str_views(table@).contains(s@),
{
    let mut i: usize = 0;
    while i < table.len()
        invariant
            i <= table@.len(),
            forall|j: int| 0 <= j < i ==> table@[j]@ != s@,
        decreases table@.len() - i,
    {
        let entry = chars_of(table[i]);
        if same_chars(entry.as_slice(), s) {
            assert(str_views(table@)[i as int] == s@);
            return true;
        }
        i = i + 1;
    }
    assert forall|j: int| 0 <= j < str_views(table@).len() implies str_views(table@)[j] != s@ by {
        assert(str_views(table@)[j] == table@[j]@);
    }
    false
}

/// Whether the lowercase of some string of `extra` equals `lower`.
pub open spec fn some_lowercase_equals(extra: Seq<Seq<char>>, lower: Seq<char>) -> bool {
    exists|i: int| 0 <= i < extra.len() && str_lowercase(#[trigger] extra[i]) == lower
}

/// Whether `ext`, in lowercase, is a known ransomware extension or the lowercase of one of
/// `extra`.
pub open spec fn ransomware_extension_spec(ext: Seq<char>, extra: Seq<Seq<char>>) -> bool {
    known_ransomware_extensions().contains(str_lowercase(ext)) || some_lowercase_equals(
        extra,
        str_lowercase(ext),
    )
}

/// True when the lowercase of `ext` is a known ransomware extension, or the lowercase of
/// one of `extra`. For ASCII text the lowercase is letter by letter, so `.LOCKED` is known.
pub fn is_ransomware_extension(ext: &str, extra: &[String]) -> (r: bool)
    ensures
        r == ransomware_extension_spec(ext@, string_views(extra@)),
        is_ascii_text(ext@) ==> r == (known_ransomware_extensions().contains(ascii_lower(ext@))
            || some_lowercase_equals(string_views(extra@), ascii_lower(ext@))),
{
    let lower = to_lowercase(ext);
    let lc = chars_of(lower.as_str());
    let known = ransomware_extension_table();
    if table_contains(&known, lc.as_slice()) {
        return true;
    }
    let mut i: usize = 0;
    while i < extra.len()
        invariant
            i <= extra@.len(),
            lc@ == str_lowercase(ext@),
            is_ascii_text(ext@) ==> lc@ == ascii_lower(ext@),
            !known_ransomware_extensions().contains(lc@),
            forall|j: int| 0 <= j < i ==> str_lowercase(#[trigger] string_views(extra@)[j]) != lc@,
        decreases extra@.len() - i,
    {
        let e = to_lowercase(extra[i].as_str());
        let ec = chars_of(e.as_str());
        assert(string_views(extra@)[i as int] == extra@[i as int]@);
        if same_chars(ec.as_slice(), lc.as_slice()) {
            assert(str_lowercase(string_views(extra@)[i as int]) == lc@);
            return true;
        }
        i = i + 1;
    }
    false
}

/// Whether the uppercase of some string of `names` equals `upper`.
pub open spec fn some_uppercase_equals(names: Seq<Seq<char>>, upper: Seq<char>) -> bool {
    exists|i: int| 0 <= i < names.len() && str_uppercase(#[trigger] names[i]) == upper
}

/// Whether `name`, in uppercase, is the uppercase of a known ransom-note name or of one of
/// `extra`.
pub open spec fn ransom_note_spec(name: Seq<char>, extra: Seq<Seq<char>>) -> bool {
    some_uppercase_equals(known_ransom_notes(), str_uppercase(name)) || some_uppercase_equals(
        extra,
        str_uppercase(name),
    )
}

/// The known ransom-note names in uppercase, letter by letter (they are all ASCII).
pub open spec fn known_ransom_notes_upper() -> Seq<Seq<char>> {
    known_ransom_notes().map_values(|n: Seq<char>| ascii_upper(n))
}

proof fn lemma_known_notes_ascii()
    ensures
        forall|i: int| 0 <= i < known_ransom_notes().len() ==> is_ascii_text(#[trigger] known_ransom_notes()[i]),
{
    reveal_strlit("README.txt");
    reveal_strlit("DECRYPT.txt");
    reveal_strlit("DECRYPT_INSTRUCTIONS.txt");
    reveal_strlit("HOW_TO_RECOVER.txt");
    reveal_strlit("HOW_TO_DECRYPT.txt");
    reveal_strlit("HOW_TO_BUY.txt");
    reveal_strlit("RECOVERY.txt");
    reveal_strlit("READ_ME.txt");
    reveal_strlit("HELP_DECRYPT.txt");
    reveal_strlit("HELP_TO_SAVE_FILES.txt");
    reveal_strlit("YOUR_FILES_ARE_ENCRYPTED.txt");
    reveal_strlit("RANSOM_NOTE.txt");
    reveal_strlit("!!!RESTORE_FILES!!!.txt");
    reveal_strlit("!!! README !!!.txt");
    reveal_strlit("_RECOVER_INSTRUCTIONS.txt");
    reveal_strlit("@DECRYPT.txt");
    reveal_strlit("@PLEASE_READ_ME@.txt");
    reveal_strlit("WannaDecryptor.exe");
    reveal_strlit("WanaDecryptor.exe");
    reveal_strlit("@WanaDecryptor@.exe");
    reveal_strlit("DECRYPT_INSTRUCTION.HTML");
    reveal_strlit("HELP_RESTORE_FILES.txt");
}

/// True when `filename` is, ignoring case, a known ransom-note name or one of `extra`.
/// For an ASCII name the uppercase is letter by letter, so it is a known note exactly when
/// its uppercase is that of one.
pub fn is_ransom_note(filename: &str, extra: &[String]) -> (r: bool)
    ensures
        r == ransom_note_spec(filename@, string_views(extra@)),
        is_ascii_text(filename@) ==> r == (known_ransom_notes_upper().contains(
            ascii_upper(filename@),
        ) || some_uppercase_equals(string_views(extra@), ascii_upper(filename@))),
{
    proof {
        lemma_known_notes_ascii();
    }
    let upper = to_uppercase(filename);
    let uc = chars_of(upper.as_str());
    let known = ransom_note_table();
    let mut i: usize = 0;
    while i < known.len()
        invariant
            i <= known@.len(),
            str_views(known@) == known_ransom_notes(),
            uc@ == str_uppercase(filename@),
            is_ascii_text(filename@) ==> uc@ == ascii_upper(filename@),
            forall|j: int| 0 <= j < i ==> str_uppercase(#[trigger] known_ransom_notes()[j]) != uc@,
            forall|j: int|
                0 <= j < i ==> str_uppercase(#[trigger] known_ransom_notes()[j]) == ascii_upper(
                    known_ransom_notes()[j],
                ),
            forall|j: int| 0 <= j < known_ransom_notes().len() ==> is_ascii_text(#[trigger] known_ransom_notes()[j]),
        decreases known@.len() - i,
    {
        let n = to_uppercase(known[i]);
        let nc = chars_of(n.as_str());
        assert(known_ransom_notes()[i as int] == known@[i as int]@);
        if same_chars(nc.as_slice(), uc.as_slice()) {
            assert(known_ransom_notes_upper()[i as int] == ascii_upper(known_ransom_notes()[i as int]));
            assert(is_ascii_text(known_ransom_notes()[i as int]));
            assert(is_ascii_text(filename@) ==> known_ransom_notes_upper()[i as int] == ascii_upper(filename@));
            return true;
        }
        i = i + 1;
    }
    proof {
        assert forall|j: int| 0 <= j < known_ransom_notes_upper().len() implies known_ransom_notes_upper()[j]
            != uc@ by {
            assert(str_uppercase(known_ransom_notes()[j]) != uc@);
            assert(known_ransom_notes_upper()[j] == ascii_upper(known_ransom_notes()[j]));
        }
    }
    let mut k: usize = 0;
    while k < extra.len()
        invariant
            k <= extra@.len(),
            uc@ == str_uppercase(filename@),
            is_ascii_text(filename@) ==> uc@ == ascii_upper(filename@),
            is_ascii_text(filename@) ==> !known_ransom_notes_upper().contains(ascii_upper(filename@)),
            !some_uppercase_equals(known_ransom_notes(), uc@),
            forall|j: int| 0 <= j < k ==> str_uppercase(#[trigger] string_views(extra@)[j]) != uc@,
        decreases extra@.len() - k,
    {
        let n = to_uppercase(extra[k].as_str());
        let nc = chars_of(n.as_str());
        assert(string_views(extra@)[k as int] == extra@[k as int]@);
        if same_chars(nc.as_slice(), uc.as_slice()) {
            assert(str_uppercase(string_views(extra@)[k as int]) == uc@);
            return true;
        }
        k = k + 1;
    }
    false
}

/// Whether the lowercase command line `l` holds one of the recovery-inhibiting command shapes.
pub open spec fn shadow_deletion_shape(l: Seq<char>) -> bool {
    ||| (seq_contains(l, "vssadmin"@) && seq_contains(l, "delete"@))
    ||| (seq_contains(l, "wmic"@) && seq_contains(l, "shadowcopy"@) && seq_contains(l, "delete"@))
    ||| (seq_contains(l, "bcdedit"@) && seq_contains(l, "recoveryenabled"@) && seq_contains(l, "no"@))
    ||| (seq_contains(l, "wbadmin"@) && seq_contains(l, "delete"@) && seq_contains(l, "catalog"@))
}

fn has(l: &[char], word: &str) -> (r: bool)
    ensures
        r == seq_contains(l@, word@),
{
    let w = chars_of(word);
    contains(l, w.as_slice())
}

/// True when the command line, in lowercase, deletes shadow copies, disables recovery or
/// deletes the backup catalog (ATT&CK T1490, Inhibit System Recovery).
pub fn is_shadow_deletion_command(cmdline: &str) -> (r: bool)
    ensures
        r == shadow_deletion_shape(str_lowercase(cmdline@)),
        is_ascii_text(cmdline@) ==> r == shadow_deletion_shape(ascii_lower(cmdline@)),
{
    let lower = to_lowercase(cmdline);
    let l = chars_of(lower.as_str());
    let l = l.as_slice();
    (has(l, "vssadmin") && has(l, "delete")) || (has(l, "wmic") && has(l, "shadowcopy") && has(
        l,
        "delete",
    )) || (has(l, "bcdedit") && has(l, "recoveryenabled") && has(l, "no")) || (has(l, "wbadmin")
        && has(l, "delete") && has(l, "catalog"))
}

/// A recovery-inhibiting command stays one whatever text stands around it: for ASCII text,
/// whose lowercase is letter by letter, a command line of that shape keeps it with any
/// text before and after it.
pub proof fn lemma_shadow_deletion_in_context(a: Seq<char>, c: Seq<char>, b: Seq<char>)
    requires
        is_ascii_text(a),
        is_ascii_text(c),
        is_ascii_text(b),
        shadow_deletion_shape(ascii_lower(c)),
    ensures
        is_ascii_text(a + c + b),
        shadow_deletion_shape(ascii_lower(a + c + b)),
{
    let whole = a + c + b;
    assert forall|i: int| 0 <= i < whole.len() implies #[trigger] whole[i] <= '\u{7F}' by {
        if i < a.len() {
            assert(whole[i] == a[i]);
        } else if i < a.len() + c.len() {
            assert(whole[i] == c[i - a.len()]);
        } else {
            assert(whole[i] == b[i - a.len() - c.len()]);
        }
    }
    let (la, lc, lb) = (ascii_lower(a), ascii_lower(c), ascii_lower(b));
    assert(ascii_lower(whole) =~= la + lc + lb);
    let words = seq![
        "vssadmin"@, "delete"@, "wmic"@, "shadowcopy"@, "bcdedit"@, "recoveryenabled"@, "no"@,
        "wbadmin"@, "catalog"@,
    ];
    assert forall|k: int| 0 <= k < words.len() && seq_contains(lc, #[trigger] words[k]) implies seq_contains(
        la + lc + lb,
        words[k],
    ) by {
        lemma_contains_in_context(la, lc, lb, words[k]);
    }
    assert(words[0] == "vssadmin"@ && words[1] == "delete"@ && words[2] == "wmic"@);
    assert(words[3] == "shadowcopy"@ && words[4] == "bcdedit"@ && words[5] == "recoveryenabled"@);
    assert(words[6] == "no"@ && words[7] == "wbadmin"@ && words[8] == "catalog"@);
}

/// Whether `c` is an ASCII letter or digit.
pub open spec fn is_ascii_alnum(c: char) -> bool {
    ('0' <= c && c <= '9') || ('a' <= c && c <= 'z') || ('A' <= c && c <= 'Z')
}

/// What makes an extension look randomly generated: without its leading dots it has four
/// to nine characters (ten is too long), all ASCII letters or digits, and its lowercase
/// (letter by letter, as it is all ASCII) is no ordinary extension.
pub open spec fn random_extension_shape(ext: Seq<char>) -> bool {
    let s = trim_start_char_spec(ext, '.');
    &&& 4 <= s.len() <= 9
    &&& forall|i: int| 0 <= i < s.len() ==> is_ascii_alnum(#[trigger] s[i])
    &&& !legitimate_extensions().contains(ascii_lower(s))
}

/// True when the extension looks randomly generated, as some novel ransomware families make
/// them (`.a3x8`).
pub fn looks_random_extension(ext: &str) -> (r: bool)
    ensures
        r == random_extension_shape(ext@),
{
    let e = chars_of(ext);
    let s = trim_start_char(e.as_slice(), '.');
    let n = s.len();
    let mut i: usize = 0;
    while i < n
        invariant
            n == s@.len(),
            s@ == trim_start_char_spec(ext@, '.'),
            i <= n,
            forall|j: int| 0 <= j < i ==> is_ascii_alnum(#[trigger] s@[j]),
        decreases n - i,
    {
        let c = s[i];
        if !(('0' <= c && c <= '9') || ('a' <= c && c <= 'z') || ('A' <= c && c <= 'Z')) {
            assert(!is_ascii_alnum(s@[i as int]));
            return false;
        }
        i = i + 1;
    }
    if n < 4 || n > 9 {
        return false;
    }
    let text = string_of(s.as_slice());
    assert(is_ascii_text(text@)) by {
        assert forall|i: int| 0 <= i < text@.len() implies #[trigger] text@[i] <= '\u{7F}' by {
            assert(is_ascii_alnum(s@[i]));
        }
    }
    let lower = to_lowercase(text.as_str());
    let lc = chars_of(lower.as_str());
    let legit = legitimate_extension_table();
    !table_contains(&legit, lc.as_slice())
}

} // verus!
