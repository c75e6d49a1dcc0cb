//! The image catalog: which files of a directory listing are eligible, and
//! in what order they are shown.  The eligible paths are sorted lexically,
//! so an unshuffled catalog is the same after every rescan; shuffling is a
//! separate, caller-invoked step.

use vstd::prelude::*;
use vstd::seq_lib::lemma_sorted_unique;
use vstd::relations::{sorted_by, total_ordering};
use vstd::string::StrSliceExecFns;

use rand::seq::SliceRandom;

verus! {

// ----- lexicographic order on paths -----

/// Lexicographic order on character sequences, by code point.
pub open spec fn lex_leq(a: Seq<char>, b: Seq<char>) -> bool
    decreases a.len(),
{
    if a.len() == 0 {
        true
    } else if b.len() == 0 {
        false
    } else if (a[0] as u32) < (b[0] as u32) {
        true
    } else if a[0] != b[0] {
        false
    } else {
        lex_leq(a.drop_first(), b.drop_first())
    }
}

/// The order as a value, for `sort_by`.
pub open spec fn lexf() -> spec_fn(Seq<char>, Seq<char>) -> bool {
    |a: Seq<char>, b: Seq<char>| lex_leq(a, b)
}

/// The order relates every sequence to itself.
pub proof fn lemma_lex_refl(a: Seq<char>)
    ensures
        lex_leq(a, a),
    decreases a.len(),
{
    if a.len() > 0 {
        lemma_lex_refl(a.drop_first());
    }
}

/// Any two sequences are related one way or the other.
pub proof fn lemma_lex_total(a: Seq<char>, b: Seq<char>)
    ensures
        lex_leq(a, b) || lex_leq(b, a),
    decreases a.len(),
{
    if a.len() == 0 || b.len() == 0 {
    } else if a[0] == b[0] {
        lemma_lex_total(a.drop_first(), b.drop_first());
    } else {
        let c = a[0];
        let d = b[0];
        if (c as u32) < (d as u32) {
            assert(lex_leq(a, b));
        } else {
            assert(c as u32 != d as u32) by {
                vstd::utf8::char_u32_cast(c, c as u32);
                vstd::utf8::char_u32_cast(d, d as u32);
            }
            assert((d as u32) < (c as u32));
            assert(lex_leq(b, a));
        }
    }
}

/// Sequences related both ways are equal.
pub proof fn lemma_lex_antisym(a: Seq<char>, b: Seq<char>)
    requires
        lex_leq(a, b),
        lex_leq(b, a),
    ensures
        a == b,
    decreases a.len(),
{
    if a.len() == 0 {
        assert(b.len() == 0);
        assert(a =~= b);
    } else {
        assert(a[0] == b[0]);
        lemma_lex_antisym(a.drop_first(), b.drop_first());
        assert(a.drop_first().len() == b.drop_first().len());
        assert(a.len() == b.len());
        assert forall|i: int| 0 <= i < a.len() implies a[i] == b[i] by {
            if i > 0 {
                assert(a.drop_first()[i - 1] == a[i]);
                assert(b.drop_first()[i - 1] == b[i]);
            }
        }
        assert(a =~= b);
    }
}

/// The order composes.
pub proof fn lemma_lex_trans(a: Seq<char>, b: Seq<char>, c: Seq<char>)
    requires
        lex_leq(a, b),
        lex_leq(b, c),
    ensures
        lex_leq(a, c),
    decreases a.len(),
{
    if a.len() > 0 {
        assert(b.len() > 0);
        assert(c.len() > 0);
        if a[0] == b[0] && b[0] == c[0] {
            lemma_lex_trans(a.drop_first(), b.drop_first(), c.drop_first());
        }
    }
}

/// Lexicographic order is a total order.
pub proof fn lemma_lex_total_ordering()
    ensures
        total_ordering(lexf()),
{
    assert forall|a: Seq<char>| #[trigger] lexf()(a, a) by {
        lemma_lex_refl(a);
    }
    assert forall|a: Seq<char>, b: Seq<char>|
        #[trigger] lexf()(a, b) && #[trigger] lexf()(b, a) implies a == b by {
        lemma_lex_antisym(a, b);
    }
    assert forall|a: Seq<char>, b: Seq<char>, c: Seq<char>|
        #[trigger] lexf()(a, b) && #[trigger] lexf()(b, c) implies lexf()(a, c) by {
        lemma_lex_trans(a, b, c);
    }
    assert forall|a: Seq<char>, b: Seq<char>| #[trigger] lexf()(a, b) || #[trigger] lexf()(
        b,
        a,
    ) by {
        lemma_lex_total(a, b);
    }
}

/// Dropping an equal prefix does not change how two sequences compare.
proof fn lemma_lex_common(a: Seq<char>, b: Seq<char>, i: int)
    requires
        0 <= i <= a.len(),
        i <= b.len(),
        forall|j: int| 0 <= j < i ==> a[j] == b[j],
    ensures
        lex_leq(a, b) == lex_leq(
            a.subrange(i, a.len() as int),
            b.subrange(i, b.len() as int),
        ),
    decreases i,
{
    if i == 0 {
        assert(a.subrange(0, a.len() as int) =~= a);
        assert(b.subrange(0, b.len() as int) =~= b);
    } else {
        assert(a[0] == b[0]);
        assert(a.len() > 0 && b.len() > 0);
        assert(forall|j: int|
            0 <= j < a.len() - 1 ==> a.drop_first()[j] == a[j + 1]);
        assert(forall|j: int|
            0 <= j < b.len() - 1 ==> b.drop_first()[j] == b[j + 1]);
        lemma_lex_common(a.drop_first(), b.drop_first(), i - 1);
        assert(a.drop_first().subrange(i - 1, a.len() - 1) =~= a.subrange(i, a.len() as int));
        assert(b.drop_first().subrange(i - 1, b.len() - 1) =~= b.subrange(i, b.len() as int));
    }
}

/// Whether `a` comes at or before `b` in lexicographic order.
pub fn str_lex_le(a: &str, b: &str) -> (r: bool)
    ensures
        r == lex_leq(a@, b@),
{
    let alen = a.unicode_len();
    let blen = b.unicode_len();
    let mut i: usize = 0;
    while i < alen && i < blen
        invariant
            alen == a@.len(),
            blen == b@.len(),
            i <= alen,
            i <= blen,
            forall|j: int| 0 <= j < i ==> a@[j] == b@[j],
        decreases alen - i,
    {
        let ca = a.get_char(i);
        let cb = b.get_char(i);
        if ca == cb {
            i += 1;
        } else {
            proof {
                lemma_lex_common(a@, b@, i as int);
                assert(a@.subrange(i as int, alen as int)[0] == a@[i as int]);
                assert(b@.subrange(i as int, blen as int)[0] == b@[i as int]);
            }
            return (ca as u32) < (cb as u32);
        }
    }
    proof {
        lemma_lex_common(a@, b@, if alen <= blen { alen as int } else { blen as int });
    }
    alen <= blen
}

// ----- eligibility of a path -----

/// The suffix of `s` after its last `c`; all of `s` when `c` is absent.
pub open spec fn suffix_after_last(s: Seq<char>, c: char) -> Seq<char>
    decreases s.len(),
{
    if s.len() == 0 {
        s
    } else if s.last() == c {
        Seq::empty()
    } else {
        suffix_after_last(s.drop_last(), c).push(s.last())
    }
}

/// The file name of a path: what follows the last separator.
pub open spec fn spec_file_name(p: Seq<char>) -> Seq<char> {
    suffix_after_last(p, '/')
}

/// Whether a file name has an extension: a dot that is not its first
/// character.
pub open spec fn has_ext(name: Seq<char>) -> bool {
    exists|i: int| 1 <= i < name.len() && name[i] == '.'
}

/// ASCII lower case of one character.
pub open spec fn lower_char(c: char) -> char {
    if 'A' as u32 <= c as u32 <= 'Z' as u32 {
        ((c as u32 + 32) as u8) as char
    } else {
        c
    }
}

/// Whether the characters are, lower-cased, the extension `jpg`.
pub open spec fn ext_is_jpg(e: Seq<char>) -> bool {
    e.len() == 3 && lower_char(e[0]) == 'j' && lower_char(e[1]) == 'p' && lower_char(e[2]) == 'g'
}

/// Whether the characters are, lower-cased, the extension `png`.
pub open spec fn ext_is_png(e: Seq<char>) -> bool {
    e.len() == 3 && lower_char(e[0]) == 'p' && lower_char(e[1]) == 'n' && lower_char(e[2]) == 'g'
}

/// Whether a path names a file the catalog accepts: a `jpg` or `png`
/// extension, compared without regard to case.
pub open spec fn spec_eligible(p: Seq<char>) -> bool {
    let name = spec_file_name(p);
    let ext = suffix_after_last(name, '.');
    has_ext(name) && (ext_is_jpg(ext) || ext_is_png(ext))
}

/// `suffix_after_last` is the slice after the last occurrence.
proof fn lemma_suffix_after_last(s: Seq<char>, c: char, k: int)
    requires
        0 <= k <= s.len(),
        forall|j: int| k <= j < s.len() ==> s[j] != c,
        k > 0 ==> s[k - 1] == c,
    ensures
        suffix_after_last(s, c) == s.subrange(k, s.len() as int),
    decreases s.len(),
{
    if s.len() == 0 {
        assert(s.subrange(0, 0) =~= s);
    } else if s.last() == c {
        assert(k == s.len());
        assert(s.subrange(k, s.len() as int) =~= Seq::<char>::empty());
    } else {
        assert(k < s.len());
        assert(forall|j: int|
            0 <= j < s.len() - 1 ==> s.drop_last()[j] == s[j]);
        lemma_suffix_after_last(s.drop_last(), c, k);
        assert(s.drop_last().subrange(k, s.len() - 1).push(s.last()) =~= s.subrange(
            k,
            s.len() as int,
        ));
    }
}

/// One past the last `c` in `cs[start..end]`; `start` when there is none.
fn rfind_in(cs: &Vec<char>, start: usize, end: usize, c: char) -> (k: usize)
    requires
        start <= end <= cs@.len(),
    ensures
        start <= k <= end,
        forall|j: int| k <= j < end ==> cs@[j] != c,
        k > start ==> cs@[k - 1] == c,
{
    let mut k: usize = end;
    while k > start
        invariant
            start <= k <= end <= cs@.len(),
            forall|j: int| k <= j < end ==> cs@[j] != c,
        decreases k,
    {
        if cs[k - 1] == c {
            return k;
        }
        k -= 1;
    }
    k
}

/// Whether `path` is an eligible image file path.
pub fn eligible_path(path: &str) -> (r: bool)
    ensures
        r == spec_eligible(path@),
{
    let cs = crate::text::chars_of(path);
    let n = cs.len();
    // find the start of the file name
    let name_start = rfind_in(&cs, 0, n, '/');
    proof {
        lemma_suffix_after_last(path@, '/', name_start as int);
    }
    let ghost name = spec_file_name(path@);
    proof {
        assert(name == path@.subrange(name_start as int, n as int));
        assert(forall|j: int|
            0 <= j < name.len() ==> name[j] == cs@[name_start + j]);
    }
    // find the start of the extension within the file name
    let dot = rfind_in(&cs, name_start, n, '.');
    // a dot at the first name character does not make an extension
    if dot - name_start <= 1 {
        proof {
            assert forall|i: int| !(1 <= i < name.len() && name[i] == '.') by {
                if 1 <= i < name.len() {
                    assert(name[i] == cs@[name_start + i]);
                }
            }
            assert(!has_ext(name));
        }
        return false;
    }
    proof {
        assert(cs@[dot - 1] == '.');
        assert(name[dot - 1 - name_start] == '.');
        assert(has_ext(name));
        lemma_suffix_after_last(name, '.', dot - name_start);
        assert(suffix_after_last(name, '.') =~= path@.subrange(dot as int, n as int));
    }
    let ghost ext = suffix_after_last(name, '.');
    if n - dot != 3 {
        return false;
    }
    let e0 = lower_ascii(cs[dot]);
    let e1 = lower_ascii(cs[dot + 1]);
    let e2 = lower_ascii(cs[dot + 2]);
    proof {
        assert(ext[0] == cs@[dot as int]);
        assert(ext[1] == cs@[dot + 1]);
        assert(ext[2] == cs@[dot + 2]);
    }
    let jpg = e0 == 'j' && e1 == 'p' && e2 == 'g';
    let png = e0 == 'p' && e1 == 'n' && e2 == 'g';
    jpg || png
}

/// ASCII lower case of one character.
pub(crate) fn lower_ascii(c: char) -> (r: char)
    ensures
        r == lower_char(c),
{
    let cu = c as u32;
    if 65 <= cu && cu <= 90 {
        ((cu + 32) as u8) as char
    } else {
        c
    }
}

// ----- building the catalog -----

/// Abstract value of one directory entry.
pub ghost struct EntryV {
    pub path: Seq<char>,
    pub is_file: bool,
}

/// One entry of a directory listing, as the scanner sees it.
pub struct DirEntry {
    pub path: String,
    pub is_file: bool,
}

impl View for DirEntry {
    type V = EntryV;

    open spec fn view(&self) -> EntryV {
        EntryV { path: self.path@, is_file: self.is_file }
    }
}

/// Whether an entry belongs in the catalog: a regular file with an accepted
/// extension.
pub open spec fn entry_eligible(e: EntryV) -> bool {
    e.is_file && spec_eligible(e.path)
}

/// The paths of the eligible entries, in listing order.
pub open spec fn eligible_paths(es: Seq<EntryV>) -> Seq<Seq<char>>
    decreases es.len(),
{
    if es.len() == 0 {
        Seq::empty()
    } else {
        let r = eligible_paths(es.drop_last());
        if entry_eligible(es.last()) {
            r.push(es.last().path)
        } else {
            r
        }
    }
}

/// The character sequences of a vector of strings.
pub open spec fn views_of(v: Seq<String>) -> Seq<Seq<char>> {
    v.map_values(|s: String| s@)
}

/// The catalog of a listing: its eligible paths, sorted lexically.
pub open spec fn spec_catalog(es: Seq<EntryV>) -> Seq<Seq<char>> {
    eligible_paths(es).sort_by(lexf())
}

/// Inserting keeps the multiset of a sequence, plus the new element.
proof fn lemma_insert_to_multiset(s: Seq<Seq<char>>, pos: int, x: Seq<char>)
    requires
        0 <= pos <= s.len(),
    ensures
        s.insert(pos, x).to_multiset() == s.to_multiset().insert(x),
{
    broadcast use vstd::seq_lib::group_to_multiset_ensures;

    let m = s.insert(pos, x);
    s.insert_ensures(pos, x);
    assert(m.remove(pos) =~= s);
    assert(m[pos] == x);
    assert(m.remove(pos).to_multiset() =~= m.to_multiset().remove(m[pos]));
    assert(m.contains(x)) by {
        assert(m[pos] == x);
    }
    assert(m.to_multiset().count(x) > 0);
    assert(m.to_multiset() =~= s.to_multiset().insert(x));
}

/// Inserting between its neighbours keeps a sequence sorted.
proof fn lemma_insert_sorted(s: Seq<Seq<char>>, pos: int, x: Seq<char>)
    requires
        sorted_by(s, lexf()),
        0 <= pos <= s.len(),
        forall|k: int| 0 <= k < pos ==> lex_leq(#[trigger] s[k], x),
        pos < s.len() ==> lex_leq(x, s[pos]),
    ensures
        sorted_by(s.insert(pos, x), lexf()),
{
    let m = s.insert(pos, x);
    s.insert_ensures(pos, x);
    assert forall|i: int, j: int| 0 <= i < j < m.len() implies lexf()(m[i], m[j]) by {
        if j < pos {
            assert(lexf()(s[i], s[j]));
        } else if i < pos && j == pos {
            assert(lex_leq(s[i], x));
        } else if i < pos && j > pos {
            if i == j - 1 {
                lemma_lex_refl(s[i]);
            } else {
                assert(lexf()(s[i], s[j - 1]));
            }
        } else if i == pos {
            assert(m[j] == s[j - 1]);
            assert(lex_leq(x, s[pos]));
            if pos < j - 1 {
                assert(lexf()(s[pos], s[j - 1]));
                lemma_lex_trans(x, s[pos], s[j - 1]);
            }
        } else {
            assert(m[i] == s[i - 1] && m[j] == s[j - 1]);
            assert(lexf()(s[i - 1], s[j - 1]));
        }
    }
}

/// The place where `x` belongs in the sorted `out`.
fn find_insert(out: &Vec<String>, x: &String) -> (j: usize)
    ensures
        j <= out@.len(),
        forall|k: int| 0 <= k < j ==> lex_leq(#[trigger] out@[k]@, x@),
        j < out@.len() ==> lex_leq(x@, out@[j as int]@),
{
    let mut j: usize = 0;
    let n = out.len();
    while j < n
        invariant
            j <= n == out@.len(),
            forall|k: int| 0 <= k < j ==> lex_leq(#[trigger] out@[k]@, x@),
        decreases n - j,
    {
        if str_lex_le(x.as_str(), out[j].as_str()) {
            return j;
        }
        proof {
            lemma_lex_total(x@, out@[j as int]@);
        }
        j += 1;
    }
    j
}

/// The strings of `v`, in lexicographic order.
pub fn sort_paths(v: Vec<String>) -> (r: Vec<String>)
    ensures
        sorted_by(views_of(r@), lexf()),
        views_of(r@).to_multiset() == views_of(v@).to_multiset(),
{
    broadcast use vstd::seq_lib::group_to_multiset_ensures;

    let mut out: Vec<String> = Vec::new();
    let mut i: usize = 0;
    let n = v.len();
    proof {
        assert(views_of(out@) =~= Seq::<Seq<char>>::empty());
        assert(views_of(v@.subrange(0, 0)) =~= Seq::<Seq<char>>::empty());
    }
    while i < n
        invariant
            i <= n == v@.len(),
            sorted_by(views_of(out@), lexf()),
            views_of(out@).to_multiset() == views_of(v@.subrange(0, i as int)).to_multiset(),
        decreases n - i,
    {
        let x = v[i].clone();
        let j = find_insert(&out, &x);
        let ghost old_out = out@;
        out.insert(j, x);
        proof {
            assert(views_of(old_out.insert(j as int, x)) =~= views_of(old_out).insert(
                j as int,
                x@,
            )) by {
                old_out.insert_ensures(j as int, x);
                views_of(old_out).insert_ensures(j as int, x@);
            }
            lemma_insert_sorted(views_of(old_out), j as int, x@);
            lemma_insert_to_multiset(views_of(old_out), j as int, x@);
            let prev = views_of(v@.subrange(0, i as int));
            assert(views_of(v@.subrange(0, i + 1)) =~= prev.push(v@[i as int]@));
            prev.to_multiset_ensures();
            assert(prev.push(v@[i as int]@).to_multiset() =~= prev.to_multiset().insert(
                v@[i as int]@,
            ));
        }
        i += 1;
    }
    proof {
        assert(v@.subrange(0, n as int) =~= v@);
    }
    out
}

/// The catalog built from one directory listing: the eligible paths, sorted
/// lexically.
pub fn scan_entries(entries: &Vec<DirEntry>) -> (r: Vec<String>)
    ensures
        views_of(r@) == spec_catalog(entries@.map_values(|e: DirEntry| e@)),
{
    let ghost evs = entries@.map_values(|e: DirEntry| e@);
    let mut picked: Vec<String> = Vec::new();
    let mut i: usize = 0;
    let n = entries.len();
    proof {
        assert(views_of(picked@) =~= Seq::<Seq<char>>::empty());
        assert(eligible_paths(evs.subrange(0, 0)) =~= Seq::<Seq<char>>::empty());
    }
    while i < n
        invariant
            i <= n == entries@.len(),
            evs == entries@.map_values(|e: DirEntry| e@),
            views_of(picked@) == eligible_paths(evs.subrange(0, i as int)),
        decreases n - i,
    {
        let e = &entries[i];
        proof {
            assert(evs.subrange(0, i + 1).drop_last() =~= evs.subrange(0, i as int));
            assert(evs.subrange(0, i + 1).last() == evs[i as int]);
        }
        if e.is_file && eligible_path(e.path.as_str()) {
            picked.push(e.path.clone());
            proof {
                assert(views_of(picked@) =~= eligible_paths(evs.subrange(0, i as int)).push(
                    evs[i as int].path,
                ));
            }
        }
        i += 1;
    }
    proof {
        assert(evs.subrange(0, n as int) =~= evs);
    }
    let r = sort_paths(picked);
    proof {
        lemma_lex_total_ordering();
        eligible_paths(evs).lemma_sort_by_ensures(lexf());
        lemma_sorted_unique(views_of(r@), spec_catalog(evs), lexf());
    }
    r
}

/// The first catalog position whose file name is `pinned_filename`, if the
/// name is present at all.
pub fn find_pinned_image_index(images: &Vec<String>, pinned_filename: &str) -> (r: Option<
    usize,
>)
    ensures
        match r {
            Some(i) => {
                &&& i < images@.len()
                &&& spec_file_name(images@[i as int]@) == pinned_filename@
                &&& forall|j: int|
                    0 <= j < i ==> spec_file_name(#[trigger] images@[j]@) != pinned_filename@
            },
            None => forall|j: int|
                0 <= j < images@.len() ==> spec_file_name(#[trigger] images@[j]@)
                    != pinned_filename@,
        },
{
    let n = images.len();
    let mut i: usize = 0;
    while i < n
        invariant
            i <= n == images@.len(),
            forall|j: int|
                0 <= j < i ==> spec_file_name(#[trigger] images@[j]@) != pinned_filename@,
        decreases n - i,
    {
        if file_name_matches(images[i].as_str(), pinned_filename) {
            return Some(i);
        }
        i += 1;
    }
    None
}

/// Whether the file name of `path` is exactly `name`.
fn file_name_matches(path: &str, name: &str) -> (r: bool)
    ensures
        r == (spec_file_name(path@) == name@),
{
    let cs = crate::text::chars_of(path);
    let n = cs.len();
    let name_start = rfind_in(&cs, 0, n, '/');
    proof {
        lemma_suffix_after_last(path@, '/', name_start as int);
    }
    let fname = crate::text::string_from_range(cs.as_slice(), name_start, n);
    crate::text::str_eq(fname.as_str(), name)
}

/// Relies on rand's slice `shuffle`: an in-place permutation of the
/// elements, chosen uniformly by the thread-local generator.
#[verifier::external_body]
pub(crate) fn shuffle_paths(v: &mut Vec<String>)
    ensures
        final(v)@.len() == old(v)@.len(),
        final(v)@.to_multiset() == old(v)@.to_multiset(),
        views_of(final(v)@).to_multiset() == views_of(old(v)@).to_multiset(),
{
    let mut rng = rand::rng();
    v.shuffle(&mut rng);
}

} // verus!
