//! The settings file format: a line-oriented, human-editable text holding
//! the whole record.  `settings_text` is the canonical serialization;
//! `spec_parse` is the reader, which also accepts blank lines, `#` comments,
//! extra spaces around `=`, and the keys in any order.  Reading the
//! canonical text of a well-formed record gives the record back, proved in
//! `lemma_settings_round_trip`.

use vstd::prelude::*;
use vstd::string::StringExecFns;

use crate::dectext::{all_digits, dec_text, digit_val, digits_val, is_digit, u64_to_text};
use crate::dectext::{lemma_dec_text_digits, lemma_digits_val_dec_text};
use crate::settings::{PartialV, SettingsV};

verus! {

// ----- canonical text of a record -----

/// The line separator.
pub open spec fn nl() -> Seq<char> {
    "\n"@
}

/// The text of a boolean value.
pub open spec fn bool_text(b: bool) -> Seq<char> {
    if b {
        "true"@
    } else {
        "false"@
    }
}

/// A filename between double quotes.
pub open spec fn quoted(f: Seq<char>) -> Seq<char> {
    "\""@ + f + "\""@
}

/// One assignment line, without its newline.
pub open spec fn line_of(key: Seq<char>, val: Seq<char>) -> Seq<char> {
    key + " = "@ + val
}

/// The canonical text of a whole record: one line per field, the pin line
/// only when a pin is set.
pub open spec fn settings_text(v: SettingsV) -> Seq<char> {
    line_of("display_enabled"@, bool_text(v.display_enabled)) + nl() + line_of(
        "rotate_interval_secs"@,
        dec_text(v.rotate_interval_secs as int),
    ) + nl() + line_of("shuffle"@, bool_text(v.shuffle)) + nl() + (match v.pinned_image {
        Some(f) => line_of("pinned_image"@, quoted(f)) + nl(),
        None => Seq::<char>::empty(),
    })
}

// ----- reading text back -----

/// Whitespace that may surround a key or a value on its line.
pub open spec fn is_ws(c: char) -> bool {
    c == ' ' || c == '\t' || c == '\r'
}

/// Index of the first `c` in `s`; `s.len()` when there is none.
pub open spec fn find_char(s: Seq<char>, c: char) -> int
    decreases s.len(),
{
    if s.len() == 0 {
        0
    } else if s[0] == c {
        0
    } else {
        1 + find_char(s.drop_first(), c)
    }
}

/// What `find_char` returns: the position of the first occurrence.
pub proof fn lemma_find_char(s: Seq<char>, c: char)
    ensures
        0 <= find_char(s, c) <= s.len(),
        forall|j: int| 0 <= j < find_char(s, c) ==> s[j] != c,
        find_char(s, c) < s.len() ==> s[find_char(s, c)] == c,
    decreases s.len(),
{
    if s.len() > 0 && s[0] != c {
        lemma_find_char(s.drop_first(), c);
        assert forall|j: int| 0 <= j < find_char(s, c) implies s[j] != c by {
            if j > 0 {
                assert(s.drop_first()[j - 1] == s[j]);
            }
        }
    }
}

/// `find_char` is determined by where the first occurrence sits.
pub proof fn lemma_find_char_at(s: Seq<char>, c: char, i: int)
    requires
        0 <= i <= s.len(),
        forall|j: int| 0 <= j < i ==> s[j] != c,
        i < s.len() ==> s[i] == c,
    ensures
        find_char(s, c) == i,
    decreases i,
{
    if s.len() > 0 && s[0] != c {
        assert(forall|j: int|
            0 <= j < s.len() - 1 ==> s.drop_first()[j] == s[j + 1]);
        lemma_find_char_at(s.drop_first(), c, i - 1);
    }
}

/// The lines of `s`: separated by newlines, a trailing newline closing the
/// last line.
pub open spec fn split_lines(s: Seq<char>) -> Seq<Seq<char>>
    decreases s.len(),
    via split_lines_dec
{
    if s.len() == 0 {
        Seq::<Seq<char>>::empty()
    } else {
        let i = find_char(s, '\n');
        if i == s.len() {
            seq![s]
        } else {
            seq![s.subrange(0, i)] + split_lines(s.subrange(i + 1, s.len() as int))
        }
    }
}

#[via_fn]
proof fn split_lines_dec(s: Seq<char>) {
    if s.len() != 0 {
        lemma_find_char(s, '\n');
    }
}

/// `s` without leading whitespace.
pub open spec fn trim_start(s: Seq<char>) -> Seq<char>
    decreases s.len(),
{
    if s.len() > 0 && is_ws(s[0]) {
        trim_start(s.drop_first())
    } else {
        s
    }
}

/// `s` without trailing whitespace.
pub open spec fn trim_end(s: Seq<char>) -> Seq<char>
    decreases s.len(),
{
    if s.len() > 0 && is_ws(s.last()) {
        trim_end(s.drop_last())
    } else {
        s
    }
}

/// `s` without leading or trailing whitespace.
pub open spec fn trim(s: Seq<char>) -> Seq<char> {
    trim_end(trim_start(s))
}

/// A line the reader passes over: blank, or a `#` comment.
pub open spec fn is_skippable_line(l: Seq<char>) -> bool {
    trim_start(l).len() == 0 || trim_start(l)[0] == '#'
}

/// The boolean a value text denotes.
pub open spec fn parse_bool_text(s: Seq<char>) -> Option<bool> {
    if s == "true"@ {
        Some(true)
    } else if s == "false"@ {
        Some(false)
    } else {
        None
    }
}

/// The number a value text denotes, if it is a digit string in range.
pub open spec fn parse_u64_text(s: Seq<char>) -> Option<u64> {
    if s.len() > 0 && all_digits(s) && digits_val(s) <= u64::MAX {
        Some(digits_val(s) as u64)
    } else {
        None
    }
}

/// The filename a quoted value text denotes.
pub open spec fn parse_quoted_text(s: Seq<char>) -> Option<Seq<char>> {
    if s.len() >= 2 && s[0] == '"' && s.last() == '"' && (forall|i: int|
        1 <= i < s.len() - 1 ==> s[i] != '"') {
        Some(s.subrange(1, s.len() - 1))
    } else {
        None
    }
}

/// The partial record with no field set yet.
pub open spec fn empty_partial() -> PartialV {
    PartialV {
        display_enabled: None,
        rotate_interval_secs: None,
        shuffle: None,
        pinned_image: None,
    }
}

/// One key/value pair folded into the partial record.  An unknown key and a
/// key seen twice are both errors.
pub open spec fn apply_kv(acc: PartialV, key: Seq<char>, val: Seq<char>) -> Option<PartialV> {
    if key == "display_enabled"@ {
        if acc.display_enabled is Some {
            None
        } else {
            match parse_bool_text(val) {
                Some(b) => Some(PartialV { display_enabled: Some(b), ..acc }),
                None => None,
            }
        }
    } else if key == "rotate_interval_secs"@ {
        if acc.rotate_interval_secs is Some {
            None
        } else {
            match parse_u64_text(val) {
                Some(n) => Some(PartialV { rotate_interval_secs: Some(n), ..acc }),
                None => None,
            }
        }
    } else if key == "shuffle"@ {
        if acc.shuffle is Some {
            None
        } else {
            match parse_bool_text(val) {
                Some(b) => Some(PartialV { shuffle: Some(b), ..acc }),
                None => None,
            }
        }
    } else if key == "pinned_image"@ {
        if acc.pinned_image is Some {
            None
        } else {
            match parse_quoted_text(val) {
                Some(f) => Some(PartialV { pinned_image: Some(Some(f)), ..acc }),
                None => None,
            }
        }
    } else {
        None
    }
}

/// One line folded into the partial record.
pub open spec fn apply_line(acc: PartialV, l: Seq<char>) -> Option<PartialV> {
    if is_skippable_line(l) {
        Some(acc)
    } else {
        let i = find_char(l, '=');
        if i >= l.len() {
            None
        } else {
            apply_kv(acc, trim(l.subrange(0, i)), trim(l.subrange(i + 1, l.len() as int)))
        }
    }
}

/// All lines folded in order into the partial record.
pub open spec fn parse_lines(ls: Seq<Seq<char>>) -> Option<PartialV>
    decreases ls.len(),
{
    if ls.len() == 0 {
        Some(empty_partial())
    } else {
        match parse_lines(ls.drop_last()) {
            Some(acc) => apply_line(acc, ls.last()),
            None => None,
        }
    }
}

/// A record from a finished partial one: the three plain fields must have
/// been set; an absent pin line means no pin.
pub open spec fn finish_parse(p: PartialV) -> Option<SettingsV> {
    match (p.display_enabled, p.rotate_interval_secs, p.shuffle) {
        (Some(d), Some(r), Some(sh)) => Some(
            SettingsV {
                display_enabled: d,
                rotate_interval_secs: r,
                shuffle: sh,
                pinned_image: match p.pinned_image {
                    Some(x) => x,
                    None => None,
                },
            },
        ),
        _ => None,
    }
}

/// The record a whole settings text denotes, or nothing when the text is
/// not well formed.
pub open spec fn spec_parse(s: Seq<char>) -> Option<SettingsV> {
    match parse_lines(split_lines(s)) {
        Some(p) => finish_parse(p),
        None => None,
    }
}

// ----- where trimming stops -----

/// Trimming the front stops at the first non-whitespace character.
pub proof fn lemma_trim_start_idx(l: Seq<char>, k: int)
    requires
        0 <= k <= l.len(),
        forall|j: int| 0 <= j < k ==> is_ws(l[j]),
        k < l.len() ==> !is_ws(l[k]),
    ensures
        trim_start(l) == l.subrange(k, l.len() as int),
    decreases k,
{
    if l.len() > 0 && is_ws(l[0]) {
        assert(k >= 1);
        assert(forall|j: int|
            0 <= j < l.len() - 1 ==> l.drop_first()[j] == l[j + 1]);
        lemma_trim_start_idx(l.drop_first(), k - 1);
        assert(l.drop_first().subrange(k - 1, l.len() - 1 as int) =~= l.subrange(
            k,
            l.len() as int,
        ));
    } else {
        assert(k == 0);
        assert(l.subrange(0, l.len() as int) =~= l);
    }
}

/// Trimming the back stops at the last non-whitespace character.
pub proof fn lemma_trim_end_idx(l: Seq<char>, k: int)
    requires
        0 <= k <= l.len(),
        forall|j: int| k <= j < l.len() ==> is_ws(l[j]),
        k > 0 ==> !is_ws(l[k - 1]),
    ensures
        trim_end(l) == l.subrange(0, k),
    decreases l.len(),
{
    if l.len() > 0 && is_ws(l.last()) {
        assert(k < l.len());
        assert(forall|j: int|
            0 <= j < l.len() - 1 ==> l.drop_last()[j] == l[j]);
        lemma_trim_end_idx(l.drop_last(), k);
        assert(l.drop_last().subrange(0, k) =~= l.subrange(0, k));
    } else {
        assert(k == l.len());
        assert(l.subrange(0, k) =~= l);
    }
}

/// Trimming keeps exactly the span between surrounding whitespace.
pub proof fn lemma_trim_bounds(l: Seq<char>, a: int, b: int)
    requires
        0 <= a < b <= l.len(),
        forall|j: int| 0 <= j < a ==> is_ws(l[j]),
        forall|j: int| b <= j < l.len() ==> is_ws(l[j]),
        !is_ws(l[a]),
        !is_ws(l[b - 1]),
    ensures
        trim(l) == l.subrange(a, b),
{
    lemma_trim_start_idx(l, a);
    let m = l.subrange(a, l.len() as int);
    lemma_trim_end_idx(m, b - a);
    assert(m.subrange(0, b - a) =~= l.subrange(a, b));
}

// ----- how the canonical text splits and folds -----

/// A newline after a line without one closes exactly that line.
pub proof fn lemma_split_first(l: Seq<char>, rest: Seq<char>)
    requires
        forall|j: int| 0 <= j < l.len() ==> l[j] != '\n',
    ensures
        split_lines(l + nl() + rest) == seq![l] + split_lines(rest),
{
    reveal_strlit("\n");
    let s = l + nl() + rest;
    assert(s.len() == l.len() + 1 + rest.len());
    assert(s[l.len() as int] == '\n');
    assert(forall|j: int| 0 <= j < l.len() ==> s[j] == l[j]);
    lemma_find_char_at(s, '\n', l.len() as int);
    assert(s.subrange(0, l.len() as int) =~= l);
    assert(s.subrange(l.len() + 1 as int, s.len() as int) =~= rest);
}

/// An assignment line folds like its key/value pair.
pub proof fn lemma_line_apply(acc: PartialV, key: Seq<char>, val: Seq<char>)
    requires
        key.len() > 0,
        !is_ws(key[0]),
        !is_ws(key.last()),
        key[0] != '#',
        forall|j: int| 0 <= j < key.len() ==> key[j] != '=',
        val.len() > 0,
        !is_ws(val[0]),
        !is_ws(val.last()),
    ensures
        apply_line(acc, line_of(key, val)) == apply_kv(acc, key, val),
{
    reveal_strlit(" = ");
    let l = line_of(key, val);
    let klen = key.len() as int;
    assert(l.len() == key.len() + 3 + val.len());
    assert(l[0] == key[0]);
    // not a blank or comment line
    lemma_trim_start_idx(l, 0);
    assert(l.subrange(0, l.len() as int) =~= l);
    assert(!is_skippable_line(l));
    // the first `=` is the separator
    assert(l[klen + 1] == '=');
    assert forall|j: int| 0 <= j < klen + 1 implies l[j] != '=' by {
        if j < klen {
            assert(l[j] == key[j]);
        } else {
            assert(l[j] == ' ');
        }
    }
    lemma_find_char_at(l, '=', klen + 1);
    // the trimmed key
    let kpart = l.subrange(0, klen + 1);
    assert(kpart[0] == key[0]);
    assert(kpart[klen] == ' ');
    assert(forall|j: int| 0 <= j < klen ==> kpart[j] == key[j]);
    lemma_trim_bounds(kpart, 0, klen);
    assert(kpart.subrange(0, klen) =~= key);
    // the trimmed value
    let vpart = l.subrange(klen + 2, l.len() as int);
    assert(vpart.len() == 1 + val.len());
    assert(vpart[0] == ' ');
    assert(forall|j: int| 1 <= j < vpart.len() ==> vpart[j] == val[j - 1]);
    lemma_trim_bounds(vpart, 1, vpart.len() as int);
    assert(vpart.subrange(1, vpart.len() as int) =~= val);
}

/// The text of a boolean reads back as that boolean.
pub proof fn lemma_parse_bool_round(b: bool)
    ensures
        parse_bool_text(bool_text(b)) == Some(b),
{
    reveal_strlit("true");
    reveal_strlit("false");
    assert("true"@.len() == 4);
    assert("false"@.len() == 5);
}

/// The text of a number reads back as that number.
pub proof fn lemma_parse_u64_round(n: u64)
    ensures
        parse_u64_text(dec_text(n as int)) == Some(n),
{
    lemma_dec_text_digits(n as int);
    lemma_digits_val_dec_text(n as int);
}

/// A quoted filename reads back as that filename.
pub proof fn lemma_parse_quoted_round(f: Seq<char>)
    requires
        forall|i: int| 0 <= i < f.len() ==> f[i] != '"',
    ensures
        parse_quoted_text(quoted(f)) == Some(f),
{
    reveal_strlit("\"");
    let q = quoted(f);
    assert(q.len() == f.len() + 2);
    assert(q[0] == '"');
    assert(q.last() == '"');
    assert forall|i: int| 1 <= i < q.len() - 1 implies q[i] != '"' by {
        assert(q[i] == f[i - 1]);
    }
    assert(q.subrange(1, q.len() - 1) =~= f);
}

/// Facts about the four key literals that the line lemma needs.
proof fn lemma_key_literals()
    ensures
        key_ok("display_enabled"@),
        key_ok("rotate_interval_secs"@),
        key_ok("shuffle"@),
        key_ok("pinned_image"@),
        "display_enabled"@.len() == 15,
        "rotate_interval_secs"@.len() == 20,
        "shuffle"@.len() == 7,
        "pinned_image"@.len() == 12,
{
    reveal_strlit("display_enabled");
    reveal_strlit("rotate_interval_secs");
    reveal_strlit("shuffle");
    reveal_strlit("pinned_image");
}

/// What `lemma_line_apply` asks of a key.
pub open spec fn key_ok(key: Seq<char>) -> bool {
    &&& key.len() > 0
    &&& !is_ws(key[0])
    &&& !is_ws(key.last())
    &&& key[0] != '#'
    &&& forall|j: int| 0 <= j < key.len() ==> key[j] != '='
}

/// What `lemma_line_apply` asks of a value.
pub open spec fn val_ok(val: Seq<char>) -> bool {
    &&& val.len() > 0
    &&& !is_ws(val[0])
    &&& !is_ws(val.last())
}

/// A line of the canonical text holds no newline.
pub open spec fn no_nl(s: Seq<char>) -> bool {
    forall|j: int| 0 <= j < s.len() ==> s[j] != '\n'
}

/// The text of a boolean is a clean value without newlines.
proof fn lemma_bool_text_ok(b: bool)
    ensures
        val_ok(bool_text(b)),
        no_nl(bool_text(b)),
{
    reveal_strlit("true");
    reveal_strlit("false");
}

/// The text of a number is a clean value without newlines.
proof fn lemma_dec_text_ok(n: u64)
    ensures
        val_ok(dec_text(n as int)),
        no_nl(dec_text(n as int)),
{
    lemma_dec_text_digits(n as int);
    let s = dec_text(n as int);
    assert(is_digit(s[0]) && is_digit(s.last()));
    assert forall|j: int| 0 <= j < s.len() implies s[j] != '\n' by {
        assert(is_digit(s[j]));
    }
}

/// A quoted well-formed filename is a clean value without newlines.
proof fn lemma_quoted_ok(f: Seq<char>)
    requires
        forall|i: int| 0 <= i < f.len() ==> f[i] != '\n' && f[i] != '\r',
    ensures
        val_ok(quoted(f)),
        no_nl(quoted(f)),
{
    reveal_strlit("\"");
    let q = quoted(f);
    assert(q[0] == '"');
    assert(q.last() == '"');
    assert forall|j: int| 0 <= j < q.len() implies q[j] != '\n' by {
        if 1 <= j < q.len() - 1 {
            assert(q[j] == f[j - 1]);
        }
    }
}

/// A whole assignment line of the canonical text holds no newline.
proof fn lemma_line_no_nl(key: Seq<char>, val: Seq<char>)
    requires
        no_nl(key),
        no_nl(val),
    ensures
        no_nl(line_of(key, val)),
{
    reveal_strlit(" = ");
    let l = line_of(key, val);
    assert forall|j: int| 0 <= j < l.len() implies l[j] != '\n' by {
        if j < key.len() {
            assert(l[j] == key[j]);
        } else if j < key.len() + 3 {
            assert(l[j] == " = "@[j - key.len()]);
        } else {
            assert(l[j] == val[j - key.len() - 3]);
        }
    }
}

/// Keys of the canonical text hold no newline.
proof fn lemma_keys_no_nl()
    ensures
        no_nl("display_enabled"@),
        no_nl("rotate_interval_secs"@),
        no_nl("shuffle"@),
        no_nl("pinned_image"@),
{
    reveal_strlit("display_enabled");
    reveal_strlit("rotate_interval_secs");
    reveal_strlit("shuffle");
    reveal_strlit("pinned_image");
}

/// The lines of the canonical text of a record.
pub open spec fn settings_lines(v: SettingsV) -> Seq<Seq<char>> {
    let base = seq![
        line_of("display_enabled"@, bool_text(v.display_enabled)),
        line_of("rotate_interval_secs"@, dec_text(v.rotate_interval_secs as int)),
        line_of("shuffle"@, bool_text(v.shuffle)),
    ];
    match v.pinned_image {
        Some(f) => base.push(line_of("pinned_image"@, quoted(f))),
        None => base,
    }
}

/// The canonical text splits back into its lines.
#[verifier::rlimit(100)]
#[verifier::spinoff_prover]
proof fn lemma_settings_text_lines(v: SettingsV)
    requires
        v.wf(),
    ensures
        split_lines(settings_text(v)) == settings_lines(v),
{
    lemma_keys_no_nl();
    lemma_bool_text_ok(v.display_enabled);
    lemma_bool_text_ok(v.shuffle);
    lemma_dec_text_ok(v.rotate_interval_secs);
    let l1 = line_of("display_enabled"@, bool_text(v.display_enabled));
    let l2 = line_of("rotate_interval_secs"@, dec_text(v.rotate_interval_secs as int));
    let l3 = line_of("shuffle"@, bool_text(v.shuffle));
    lemma_line_no_nl("display_enabled"@, bool_text(v.display_enabled));
    lemma_line_no_nl("rotate_interval_secs"@, dec_text(v.rotate_interval_secs as int));
    lemma_line_no_nl("shuffle"@, bool_text(v.shuffle));
    let s = settings_text(v);
    match v.pinned_image {
        Some(f) => {
            let l4 = line_of("pinned_image"@, quoted(f));
            lemma_quoted_ok(f);
            lemma_line_no_nl("pinned_image"@, quoted(f));
            let tail = l4 + nl();
            assert(s =~= l1 + nl() + (l2 + nl() + (l3 + nl() + tail)));
            lemma_split_first(l1, l2 + nl() + (l3 + nl() + tail));
            lemma_split_first(l2, l3 + nl() + tail);
            lemma_split_first(l3, tail);
            assert(tail =~= l4 + nl() + Seq::<char>::empty());
            lemma_split_first(l4, Seq::<char>::empty());
            assert(split_lines(Seq::<char>::empty()) =~= Seq::<Seq<char>>::empty());
            assert(split_lines(s) =~= settings_lines(v));
        },
        None => {
            assert(s =~= l1 + nl() + (l2 + nl() + (l3 + nl() + Seq::<char>::empty())));
            lemma_split_first(l1, l2 + nl() + (l3 + nl() + Seq::<char>::empty()));
            lemma_split_first(l2, l3 + nl() + Seq::<char>::empty());
            lemma_split_first(l3, Seq::<char>::empty());
            assert(split_lines(Seq::<char>::empty()) =~= Seq::<Seq<char>>::empty());
            assert(split_lines(s) =~= settings_lines(v));
        },
    }
}

/// Folding the canonical lines rebuilds the record.
#[verifier::rlimit(100)]
#[verifier::spinoff_prover]
proof fn lemma_settings_lines_fold(v: SettingsV)
    requires
        v.wf(),
    ensures
        parse_lines(settings_lines(v)) is Some,
        finish_parse(parse_lines(settings_lines(v)).unwrap()) == Some(v),
{
    lemma_key_literals();
    lemma_bool_text_ok(v.display_enabled);
    lemma_bool_text_ok(v.shuffle);
    lemma_dec_text_ok(v.rotate_interval_secs);
    let l1 = line_of("display_enabled"@, bool_text(v.display_enabled));
    let l2 = line_of("rotate_interval_secs"@, dec_text(v.rotate_interval_secs as int));
    let l3 = line_of("shuffle"@, bool_text(v.shuffle));
    let lines = settings_lines(v);
    let p0 = empty_partial();
    lemma_line_apply(p0, "display_enabled"@, bool_text(v.display_enabled));
    lemma_parse_bool_round(v.display_enabled);
    let p1 = PartialV { display_enabled: Some(v.display_enabled), ..p0 };
    assert(apply_line(p0, l1) == Some(p1));
    lemma_line_apply(p1, "rotate_interval_secs"@, dec_text(v.rotate_interval_secs as int));
    lemma_parse_u64_round(v.rotate_interval_secs);
    let p2 = PartialV { rotate_interval_secs: Some(v.rotate_interval_secs), ..p1 };
    assert(apply_line(p1, l2) == Some(p2));
    lemma_line_apply(p2, "shuffle"@, bool_text(v.shuffle));
    lemma_parse_bool_round(v.shuffle);
    let p3 = PartialV { shuffle: Some(v.shuffle), ..p2 };
    assert(apply_line(p2, l3) == Some(p3));
    match v.pinned_image {
        Some(f) => {
            let l4 = line_of("pinned_image"@, quoted(f));
            lemma_quoted_ok(f);
            lemma_line_apply(p3, "pinned_image"@, quoted(f));
            lemma_parse_quoted_round(f);
            let p4 = PartialV { pinned_image: Some(Some(f)), ..p3 };
            assert(apply_line(p3, l4) == Some(p4));
            assert(lines.drop_last() =~= seq![l1, l2, l3]);
            assert(seq![l1, l2, l3].drop_last() =~= seq![l1, l2]);
            assert(seq![l1, l2].drop_last() =~= seq![l1]);
            assert(seq![l1].drop_last() =~= Seq::<Seq<char>>::empty());
            assert(parse_lines(Seq::<Seq<char>>::empty()) == Some(p0));
            assert(parse_lines(seq![l1]) == Some(p1));
            assert(parse_lines(seq![l1, l2]) == Some(p2));
            assert(parse_lines(seq![l1, l2, l3]) == Some(p3));
            assert(parse_lines(lines) == Some(p4));
            assert(finish_parse(p4) == Some(v));
        },
        None => {
            assert(lines.drop_last() =~= seq![l1, l2]);
            assert(seq![l1, l2].drop_last() =~= seq![l1]);
            assert(seq![l1].drop_last() =~= Seq::<Seq<char>>::empty());
            assert(parse_lines(Seq::<Seq<char>>::empty()) == Some(p0));
            assert(parse_lines(seq![l1]) == Some(p1));
            assert(parse_lines(seq![l1, l2]) == Some(p2));
            assert(parse_lines(lines) == Some(p3));
            assert(finish_parse(p3) == Some(v));
        },
    }
}

/// Reading the canonical text of a well-formed record gives the record
/// back, exactly.
pub proof fn lemma_settings_round_trip(v: SettingsV)
    requires
        v.wf(),
    ensures
        spec_parse(settings_text(v)) == Some(v),
{
    lemma_settings_text_lines(v);
    lemma_settings_lines_fold(v);
}

// ----- the executable reader -----

/// The settings text cannot be read as a record.
#[derive(Debug, Clone, PartialEq, Eq, Structural)]
pub enum ConfigError {
    /// The text is not a well-formed settings file.
    Malformed,
}

/// Index of the first `c` in `cs[start..end]`, or `end` when there is none.
fn find_in(cs: &[char], start: usize, end: usize, c: char) -> (j: usize)
    requires
        start <= end <= cs@.len(),
    ensures
        start <= j <= end,
        forall|k: int| start <= k < j ==> cs@[k] != c,
        j < end ==> cs@[j as int] == c,
        j - start == find_char(cs@.subrange(start as int, end as int), c),
{
    let ghost l = cs@.subrange(start as int, end as int);
    proof {
        assert(forall|k: int| 0 <= k < l.len() ==> l[k] == cs@[start + k]);
    }
    let mut j: usize = start;
    while j < end
        invariant
            start <= j <= end <= cs@.len(),
            l == cs@.subrange(start as int, end as int),
            forall|k: int| start <= k < j ==> cs@[k] != c,
        decreases end - j,
    {
        if cs[j] == c {
            proof {
                lemma_find_char_at(l, c, j - start);
            }
            return j;
        }
        j += 1;
    }
    proof {
        lemma_find_char_at(l, c, (end - start) as int);
    }
    j
}

/// Whether `cs[start..end]` holds exactly the characters of `lit`.
fn slice_eq_str(cs: &[char], start: usize, end: usize, lit: &str) -> (r: bool)
    requires
        start <= end <= cs@.len(),
    ensures
        r == (cs@.subrange(start as int, end as int) == lit@),
{
    let llen = lit.unicode_len();
    if end - start != llen {
        return false;
    }
    let mut i: usize = 0;
    while i < llen
        invariant
            start + llen == end,
            end <= cs@.len(),
            llen == lit@.len(),
            i <= llen,
            forall|k: int| 0 <= k < i ==> cs@[start + k] == lit@[k],
        decreases llen - i,
    {
        let c = cs[start + i];
        if c != lit.get_char(i) {
            proof {
                let l = cs@.subrange(start as int, end as int);
                assert(l[i as int] == cs@[start + i]);
            }
            return false;
        }
        i += 1;
    }
    proof {
        assert(cs@.subrange(start as int, end as int) =~= lit@);
    }
    true
}

/// Whether a character is line whitespace.
fn ws_char(c: char) -> (r: bool)
    ensures
        r == is_ws(c),
{
    c == ' ' || c == '\t' || c == '\r'
}

/// First index at or after `start` holding a non-whitespace character.
fn scan_ws_fwd(cs: &[char], start: usize, end: usize) -> (k: usize)
    requires
        start <= end <= cs@.len(),
    ensures
        start <= k <= end,
        forall|j: int| start <= j < k ==> is_ws(cs@[j]),
        k < end ==> !is_ws(cs@[k as int]),
    decreases end - start,
{
    let mut k: usize = start;
    while k < end
        invariant
            start <= k <= end <= cs@.len(),
            forall|j: int| start <= j < k ==> is_ws(cs@[j]),
        decreases end - k,
    {
        if !ws_char(cs[k]) {
            return k;
        }
        k += 1;
    }
    k
}

/// One past the last non-whitespace character in `cs[start..end]`.
fn scan_ws_back(cs: &[char], start: usize, end: usize) -> (k: usize)
    requires
        start <= end <= cs@.len(),
    ensures
        start <= k <= end,
        forall|j: int| k <= j < end ==> is_ws(cs@[j]),
        k > start ==> !is_ws(cs@[k - 1]),
{
    let mut k: usize = end;
    while k > start
        invariant
            start <= k <= end <= cs@.len(),
            forall|j: int| k <= j < end ==> is_ws(cs@[j]),
        decreases k,
    {
        if !ws_char(cs[k - 1]) {
            return k;
        }
        k -= 1;
    }
    k
}

/// The bounds of the trimmed middle of `cs[start..end]`.
pub(crate) fn trim_range(cs: &[char], start: usize, end: usize) -> (r: (usize, usize))
    requires
        start <= end <= cs@.len(),
    ensures
        start <= r.0 <= r.1 <= end,
        trim(cs@.subrange(start as int, end as int)) == cs@.subrange(r.0 as int, r.1 as int),
{
    let ghost l = cs@.subrange(start as int, end as int);
    proof {
        assert(forall|k: int| 0 <= k < l.len() ==> l[k] == cs@[start + k]);
    }
    let a = scan_ws_fwd(cs, start, end);
    if a == end {
        proof {
            lemma_trim_start_idx(l, l.len() as int);
            assert(trim_start(l) =~= Seq::<char>::empty());
            assert(trim_end(Seq::<char>::empty()) =~= Seq::<char>::empty());
            assert(trim(l) =~= cs@.subrange(end as int, end as int));
        }
        return (end, end);
    }
    let b = scan_ws_back(cs, a, end);
    proof {
        if b == a {
            assert(is_ws(cs@[a as int]));
            assert(false);
        }
        lemma_trim_bounds(l, a - start, b - start);
        assert(l.subrange(a - start, b - start) =~= cs@.subrange(a as int, b as int));
    }
    (a, b)
}

/// The boolean `cs[start..end]` denotes.
fn parse_bool_range(cs: &[char], start: usize, end: usize) -> (r: Option<bool>)
    requires
        start <= end <= cs@.len(),
    ensures
        r == parse_bool_text(cs@.subrange(start as int, end as int)),
{
    if slice_eq_str(cs, start, end, "true") {
        Some(true)
    } else if slice_eq_str(cs, start, end, "false") {
        Some(false)
    } else {
        None
    }
}

/// The number `cs[start..end]` denotes, when it is a digit string in range.
fn parse_u64_range(cs: &[char], start: usize, end: usize) -> (r: Option<u64>)
    requires
        start <= end <= cs@.len(),
    ensures
        r == parse_u64_text(cs@.subrange(start as int, end as int)),
{
    let ghost l = cs@.subrange(start as int, end as int);
    proof {
        assert(forall|k: int| 0 <= k < l.len() ==> l[k] == cs@[start + k]);
    }
    if start == end {
        return None;
    }
    // first pass: every character must be a digit
    let mut i: usize = start;
    while i < end
        invariant
            start <= i <= end <= cs@.len(),
            l == cs@.subrange(start as int, end as int),
            forall|k: int| start <= k < i ==> is_digit(cs@[k]),
        decreases end - i,
    {
        let c = cs[i];
        let cu = c as u32;
        if !(48 <= cu && cu <= 57) {
            proof {
                assert(l[i - start] == cs@[i as int]);
                assert(!is_digit(cs@[i as int]));
                assert(!all_digits(l));
            }
            return None;
        }
        i += 1;
    }
    proof {
        assert(all_digits(l));
    }
    // second pass: accumulate, watching the range
    let mut val: u64 = 0;
    let mut i2: usize = start;
    while i2 < end
        invariant
            start <= i2 <= end <= cs@.len(),
            l == cs@.subrange(start as int, end as int),
            all_digits(l),
            val == digits_val(l.subrange(0, i2 - start)),
        decreases end - i2,
    {
        let c = cs[i2];
        proof {
            assert(l[i2 - start] == cs@[i2 as int]);
            assert(is_digit(l[i2 - start]));
        }
        let cu = c as u32;
        let d: u64 = (cu - 48) as u64;
        proof {
            assert(digit_val(l[i2 - start]) == d as int);
            assert(l.subrange(0, i2 + 1 - start as int).drop_last() =~= l.subrange(
                0,
                i2 - start as int,
            ));
            assert(l.subrange(0, i2 + 1 - start as int).last() == l[i2 - start]);
        }
        if val > (u64::MAX - d) / 10 {
            proof {
                crate::dectext::lemma_digits_val_monotone(l, i2 + 1 - start as int);
                assert(digits_val(l) >= digits_val(l.subrange(0, i2 + 1 - start as int)));
                assert(digits_val(l) > u64::MAX);
            }
            return None;
        }
        val = val * 10 + d;
        i2 += 1;
    }
    proof {
        assert(l.subrange(0, end - start as int) =~= l);
    }
    Some(val)
}

/// The filename `cs[start..end]` denotes, when it is quoted.
fn parse_quoted_range(cs: &[char], start: usize, end: usize) -> (r: Option<String>)
    requires
        start <= end <= cs@.len(),
    ensures
        (r is Some) == (parse_quoted_text(cs@.subrange(start as int, end as int)) is Some),
        r is Some ==> Some(r.unwrap()@) == parse_quoted_text(
            cs@.subrange(start as int, end as int),
        ),
{
    let ghost l = cs@.subrange(start as int, end as int);
    proof {
        assert(forall|k: int| 0 <= k < l.len() ==> l[k] == cs@[start + k]);
    }
    if end - start < 2 {
        return None;
    }
    if cs[start] != '"' {
        return None;
    }
    if cs[end - 1] != '"' {
        proof {
            assert(l.last() == cs@[end - 1]);
        }
        return None;
    }
    let mut i: usize = start + 1;
    while i < end - 1
        invariant
            start + 1 <= i <= end - 1,
            end <= cs@.len(),
            l == cs@.subrange(start as int, end as int),
            forall|k: int| start + 1 <= k < i ==> cs@[k] != '"',
        decreases end - i,
    {
        if cs[i] == '"' {
            proof {
                assert(l[i - start] == cs@[i as int]);
            }
            return None;
        }
        i += 1;
    }
    let f = crate::text::string_from_range(cs, start + 1, end - 1);
    proof {
        assert(l.last() == cs@[end - 1]);
        assert(forall|k: int| 1 <= k < l.len() - 1 ==> l[k] == cs@[start + k]);
        assert(parse_quoted_text(l) is Some);
        assert(l.subrange(1, l.len() - 1) =~= cs@.subrange(start + 1 as int, end - 1 as int));
    }
    Some(f)
}

/// Whether an executable partial record stands for the abstract one.
pub open spec fn partial_matches(
    r: Option<crate::settings::PartialSettings>,
    s: Option<PartialV>,
) -> bool {
    match (r, s) {
        (Some(a), Some(b)) => a@ == b,
        (None, None) => true,
        _ => false,
    }
}

/// One line `cs[start..end]` folded into the partial record.
#[verifier::rlimit(60)]
fn apply_line_range(
    cs: &[char],
    start: usize,
    end: usize,
    acc: crate::settings::PartialSettings,
) -> (r: Option<crate::settings::PartialSettings>)
    requires
        start <= end <= cs@.len(),
    ensures
        partial_matches(r, apply_line(acc@, cs@.subrange(start as int, end as int))),
{
    let ghost l = cs@.subrange(start as int, end as int);
    proof {
        assert(forall|k: int| 0 <= k < l.len() ==> l[k] == cs@[start + k]);
    }
    // blank or comment lines are passed over
    let first = scan_ws_fwd(cs, start, end);
    proof {
        lemma_trim_start_idx(l, first - start);
    }
    if first == end {
        proof {
            assert(trim_start(l).len() == 0);
        }
        return Some(acc);
    }
    if cs[first] == '#' {
        proof {
            assert(trim_start(l)[0] == l[first - start]);
        }
        return Some(acc);
    }
    proof {
        assert(trim_start(l)[0] == l[first - start]);
        assert(!is_skippable_line(l));
    }
    // split at the first `=`
    let eq = find_in(cs, start, end, '=');
    if eq == end {
        proof {
            assert(find_char(l, '=') >= l.len());
        }
        return None;
    }
    let ghost i = (eq - start) as int;
    let (ks, ke) = trim_range(cs, start, eq);
    let (vs, ve) = trim_range(cs, eq + 1, end);
    proof {
        assert(l.subrange(0, i) =~= cs@.subrange(start as int, eq as int));
        assert(l.subrange(i + 1, l.len() as int) =~= cs@.subrange(eq + 1 as int, end as int));
    }
    let ghost key = trim(l.subrange(0, i));
    let ghost val = trim(l.subrange(i + 1, l.len() as int));
    proof {
        assert(key == cs@.subrange(ks as int, ke as int));
        assert(val == cs@.subrange(vs as int, ve as int));
    }
    if slice_eq_str(cs, ks, ke, "display_enabled") {
        if acc.display_enabled.is_some() {
            return None;
        }
        match parse_bool_range(cs, vs, ve) {
            Some(b) => Some(crate::settings::PartialSettings { display_enabled: Some(b), ..acc }),
            None => None,
        }
    } else if slice_eq_str(cs, ks, ke, "rotate_interval_secs") {
        if acc.rotate_interval_secs.is_some() {
            return None;
        }
        match parse_u64_range(cs, vs, ve) {
            Some(n) => Some(
                crate::settings::PartialSettings { rotate_interval_secs: Some(n), ..acc },
            ),
            None => None,
        }
    } else if slice_eq_str(cs, ks, ke, "shuffle") {
        if acc.shuffle.is_some() {
            return None;
        }
        match parse_bool_range(cs, vs, ve) {
            Some(b) => Some(crate::settings::PartialSettings { shuffle: Some(b), ..acc }),
            None => None,
        }
    } else if slice_eq_str(cs, ks, ke, "pinned_image") {
        if acc.pinned_image.is_some() {
            return None;
        }
        match parse_quoted_range(cs, vs, ve) {
            Some(f) => Some(
                crate::settings::PartialSettings { pinned_image: Some(Some(f)), ..acc },
            ),
            None => None,
        }
    } else {
        None
    }
}

/// A prefix of lines that fails to fold dooms the whole fold.
proof fn lemma_parse_lines_prefix_none(a: Seq<Seq<char>>, b: Seq<Seq<char>>)
    requires
        parse_lines(a) is None,
    ensures
        parse_lines(a + b) is None,
    decreases b.len(),
{
    if b.len() == 0 {
        assert(a + b =~= a);
    } else {
        assert((a + b).drop_last() =~= a + b.drop_last());
        lemma_parse_lines_prefix_none(a, b.drop_last());
    }
}

/// The record the text denotes, or the error when it denotes none.
pub fn parse_settings(s: &str) -> (r: Result<crate::settings::FrameSettings, ConfigError>)
    ensures
        (r is Ok) == (spec_parse(s@) is Some),
        r is Ok ==> Some(r->Ok_0@) == spec_parse(s@),
{
    let chars = crate::text::chars_of(s);
    let cs = chars.as_slice();
    let len = cs.len();
    let mut acc = crate::settings::PartialSettings {
        display_enabled: None,
        rotate_interval_secs: None,
        shuffle: None,
        pinned_image: None,
    };
    let mut pos: usize = 0;
    let ghost mut done: Seq<Seq<char>> = Seq::empty();
    proof {
        assert(cs@.subrange(0, len as int) =~= cs@);
        assert(Seq::<Seq<char>>::empty() + split_lines(cs@) =~= split_lines(cs@));
        assert(acc@ == empty_partial());
    }
    while pos < len
        invariant
            pos <= len == cs@.len(),
            cs@ == s@,
            split_lines(cs@) == done + split_lines(cs@.subrange(pos as int, len as int)),
            parse_lines(done) == Some(acc@),
        decreases len - pos,
    {
        let ghost rest = cs@.subrange(pos as int, len as int);
        let j = find_in(cs, pos, len, '\n');
        let ghost i = (j - pos) as int;
        proof {
            assert(rest.len() > 0);
            assert(forall|k: int| 0 <= k < rest.len() ==> rest[k] == cs@[pos + k]);
        }
        let lend = j;
        let ghost line = cs@.subrange(pos as int, lend as int);
        let ghost rest2 = if j < len {
            cs@.subrange(j + 1 as int, len as int)
        } else {
            Seq::<char>::empty()
        };
        proof {
            if j < len {
                assert(rest.subrange(0, i) =~= line);
                assert(rest.subrange(i + 1, rest.len() as int) =~= rest2);
                assert(split_lines(rest) == seq![line] + split_lines(rest2));
            } else {
                assert(rest =~= line);
                assert(split_lines(rest) == seq![rest]);
                assert(split_lines(rest2) =~= Seq::<Seq<char>>::empty());
                assert(split_lines(rest) =~= seq![line] + split_lines(rest2));
            }
        }
        let stepped = apply_line_range(cs, pos, lend, acc);
        proof {
            assert((done.push(line)).drop_last() =~= done);
            assert(done + split_lines(rest) =~= done.push(line) + split_lines(rest2));
        }
        match stepped {
            Some(next) => {
                acc = next;
                proof {
                    done = done.push(line);
                    assert(parse_lines(done) == Some(acc@));
                }
            },
            None => {
                proof {
                    assert(parse_lines(done.push(line)) is None);
                    lemma_parse_lines_prefix_none(done.push(line), split_lines(rest2));
                    assert(parse_lines(split_lines(cs@)) is None);
                }
                return Err(ConfigError::Malformed);
            },
        }
        if j == len {
            pos = len;
            proof {
                assert(cs@.subrange(len as int, len as int).len() == 0);
                assert(split_lines(cs@.subrange(len as int, len as int))
                    =~= Seq::<Seq<char>>::empty());
                assert(done + split_lines(cs@.subrange(pos as int, len as int)) =~= done);
            }
        } else {
            pos = j + 1;
        }
    }
    proof {
        assert(cs@.subrange(pos as int, len as int).len() == 0);
        assert(split_lines(cs@.subrange(pos as int, len as int)) =~= Seq::<Seq<char>>::empty());
        assert(done + split_lines(cs@.subrange(pos as int, len as int)) =~= done);
        assert(split_lines(cs@) == done);
    }
    let crate::settings::PartialSettings {
        display_enabled,
        rotate_interval_secs,
        shuffle,
        pinned_image,
    } = acc;
    match (display_enabled, rotate_interval_secs, shuffle) {
        (Some(d), Some(ri), Some(sh)) => {
            let pin = match pinned_image {
                Some(p) => p,
                None => None,
            };
            let out = crate::settings::FrameSettings {
                display_enabled: d,
                rotate_interval_secs: ri,
                shuffle: sh,
                pinned_image: pin,
            };
            Ok(out)
        },
        _ => Err(ConfigError::Malformed),
    }
}

// ----- the executable writer -----

/// The canonical text of a record.
#[verifier::rlimit(60)]
pub fn settings_to_text(s: &crate::settings::FrameSettings) -> (r: String)
    ensures
        r@ == settings_text(s@),
{
    let mut out = String::new();
    out.append("display_enabled");
    out.append(" = ");
    if s.display_enabled {
        out.append("true");
    } else {
        out.append("false");
    }
    out.append("\n");
    out.append("rotate_interval_secs");
    out.append(" = ");
    let num = u64_to_text(s.rotate_interval_secs);
    out.append(num.as_str());
    out.append("\n");
    out.append("shuffle");
    out.append(" = ");
    if s.shuffle {
        out.append("true");
    } else {
        out.append("false");
    }
    out.append("\n");
    match &s.pinned_image {
        Some(p) => {
            out.append("pinned_image");
            out.append(" = ");
            out.append("\"");
            out.append(p.as_str());
            out.append("\"");
            out.append("\n");
        },
        None => {},
    }
    proof {
        assert(out@ =~= settings_text(s@));
    }
    out
}

} // verus!
