//! HTTP header names and the header map.
//!
//! Header names are case-normalized on input: the whole name is lowered,
//! then the first letter and every letter right after a hyphen is raised.
//! The map keeps one entry per normalized name, folding duplicate inserts
//! into a comma-separated value as RFC 7230 allows.

use vstd::prelude::*;
use vstd::string::StrSliceExecFns;

verus! {

/// The ASCII-lowercase of a character: letters `A`..`Z` move up by 32,
/// everything else is unchanged.
pub open spec fn lower_char(c: char) -> char {
    if 65 <= c as u32 <= 90 {
        (c as u32 + 32) as char
    } else {
        c
    }
}

/// The ASCII-uppercase of a character: letters `a`..`z` move down by 32,
/// everything else is unchanged.
pub open spec fn upper_char(c: char) -> char {
    if 97 <= c as u32 <= 122 {
        (c as u32 - 32) as char
    } else {
        c
    }
}

/// Normalization of everything after the first character: each character
/// is lowered, except that one standing right after a hyphen is raised.
pub open spec fn norm_tail(s: Seq<char>, after_hyphen: bool) -> Seq<char>
    decreases s.len(),
{
    if s.len() == 0 {
        Seq::empty()
    } else {
        let c = lower_char(s[0]);
        if c == '-' {
            seq!['-'] + norm_tail(s.skip(1), true)
        } else if after_hyphen {
            seq![upper_char(c)] + norm_tail(s.skip(1), false)
        } else {
            seq![c] + norm_tail(s.skip(1), false)
        }
    }
}

/// The canonical form of a header name: first letter and letters after a
/// hyphen upper-case, all other letters lower-case.
pub open spec fn normalize_name(s: Seq<char>) -> Seq<char> {
    if s.len() == 0 {
        Seq::empty()
    } else {
        seq![upper_char(lower_char(s[0]))] + norm_tail(s.skip(1), false)
    }
}

proof fn lemma_char_case(c: char)
    ensures
        lower_char(lower_char(c)) == lower_char(c),
        lower_char(upper_char(lower_char(c))) == lower_char(c),
        upper_char(upper_char(lower_char(c))) == upper_char(lower_char(c)),
        lower_char(c) == '-' <==> c == '-',
{
    assert('-' as u32 == 45);
}

/// Re-normalizing a normalized tail changes nothing.
proof fn lemma_norm_tail_idempotent(s: Seq<char>, after_hyphen: bool)
    ensures
        norm_tail(norm_tail(s, after_hyphen), after_hyphen) == norm_tail(s, after_hyphen),
    decreases s.len(),
{
    if s.len() > 0 {
        let c = lower_char(s[0]);
        lemma_char_case(s[0]);
        if c == '-' {
            lemma_norm_tail_idempotent(s.skip(1), true);
            let t = norm_tail(s.skip(1), true);
            assert((seq!['-'] + t).skip(1) =~= t);
            assert((seq!['-'] + t)[0] == '-');
        } else if after_hyphen {
            lemma_norm_tail_idempotent(s.skip(1), false);
            let u = upper_char(c);
            let t = norm_tail(s.skip(1), false);
            assert((seq![u] + t).skip(1) =~= t);
            assert((seq![u] + t)[0] == u);
            assert(lower_char(u) == c);
        } else {
            lemma_norm_tail_idempotent(s.skip(1), false);
            let t = norm_tail(s.skip(1), false);
            assert((seq![c] + t).skip(1) =~= t);
            assert((seq![c] + t)[0] == c);
            assert(lower_char(c) == c);
        }
    }
}

/// Header name normalization is idempotent: normalizing a name a second
/// time gives the same characters back.
pub proof fn lemma_normalize_name_idempotent(s: Seq<char>)
    ensures
        normalize_name(normalize_name(s)) == normalize_name(s),
{
    if s.len() > 0 {
        let d = upper_char(lower_char(s[0]));
        let t = norm_tail(s.skip(1), false);
        lemma_char_case(s[0]);
        assert((seq![d] + t)[0] == d);
        assert((seq![d] + t).skip(1) =~= t);
        lemma_norm_tail_idempotent(s.skip(1), false);
        assert(lower_char(d) == lower_char(s[0]));
    }
}

/// Collects characters into a `String`.
///
/// Relies on `String`'s `FromIterator` over `char`: collecting appends
/// each character of the iterator in order.
#[verifier::external_body]
pub(crate) fn chars_to_string(v: &Vec<char>) -> (s: String)
    ensures
        s@ == v@,
{
    v.iter().collect()
}

fn lower_char_exec(c: char) -> (r: char)
    ensures
        r == lower_char(c),
{
    let u = c as u32;
    if 65 <= u && u <= 90 {
        ((u + 32) as u8) as char
    } else {
        c
    }
}

fn upper_char_exec(c: char) -> (r: char)
    ensures
        r == upper_char(c),
{
    let u = c as u32;
    if 97 <= u && u <= 122 {
        ((u - 32) as u8) as char
    } else {
        c
    }
}

/// Produces the canonical form of a header name.
pub fn normalize_header_name(name: &str) -> (r: String)
    ensures
        r@ == normalize_name(name@),
{
    let n = name.unicode_len();
    let mut out: Vec<char> = Vec::new();
    if n == 0 {
        let s = chars_to_string(&out);
        proof {
            assert(s@ =~= normalize_name(name@));
        }
        return s;
    }
    out.push(upper_char_exec(lower_char_exec(name.get_char(0))));
    let mut after_hyphen = false;
    let mut i: usize = 1;
    proof {
        assert(out@ =~= seq![upper_char(lower_char(name@[0]))]);
    }
    while i < n
        invariant
            1 <= i <= n,
            n == name@.len(),
            normalize_name(name@) == out@ + norm_tail(name@.skip(i as int), after_hyphen),
        decreases n - i,
    {
        let c = lower_char_exec(name.get_char(i));
        proof {
            assert(name@.skip(i as int)[0] == name@[i as int]);
            assert(name@.skip(i as int).skip(1) =~= name@.skip(i + 1));
        }
        if c == '-' {
            proof {
                let t = norm_tail(name@.skip(i + 1), true);
                assert(out@ + (seq!['-'] + t) =~= out@.push('-') + t);
            }
            out.push('-');
            after_hyphen = true;
        } else if after_hyphen {
            let u = upper_char_exec(c);
            proof {
                let t = norm_tail(name@.skip(i + 1), false);
                assert(out@ + (seq![u] + t) =~= out@.push(u) + t);
            }
            out.push(u);
            after_hyphen = false;
        } else {
            proof {
                let t = norm_tail(name@.skip(i + 1), false);
                assert(out@ + (seq![c] + t) =~= out@.push(c) + t);
            }
            out.push(c);
            after_hyphen = false;
        }
        i = i + 1;
    }
    proof {
        assert(name@.skip(n as int) =~= Seq::<char>::empty());
        assert(out@ + Seq::<char>::empty() =~= out@);
    }
    chars_to_string(&out)
}

/// A map of HTTP headers: one entry per normalized name, in insertion
/// order, with raw bytes for values.
#[derive(Debug, Clone)]
pub struct Headers {
    entries: Vec<(String, Vec<u8>)>,
}

/// The index of the first entry with the given key, or -1 when none has it.
pub open spec fn find_key(s: Seq<(Seq<char>, Seq<u8>)>, k: Seq<char>) -> int
    decreases s.len(),
{
    if s.len() == 0 {
        -1
    } else if s[0].0 == k {
        0
    } else {
        let r = find_key(s.skip(1), k);
        if r < 0 {
            -1
        } else {
            r + 1
        }
    }
}

/// The entries after one insert: a new normalized key is appended, a
/// present one has a comma and the new value appended to its value.
pub open spec fn insert_entry(
    v: Seq<(Seq<char>, Seq<u8>)>,
    key: Seq<char>,
    value: Seq<u8>,
) -> Seq<(Seq<char>, Seq<u8>)> {
    let k = normalize_name(key);
    let f = find_key(v, k);
    if f < 0 {
        v.push((k, value))
    } else {
        v.update(f, (k, v[f].1 + seq![44u8] + value))
    }
}

/// What `find_key` returns: the first index bearing the key, or -1 when
/// no entry does.
pub proof fn lemma_find_key(s: Seq<(Seq<char>, Seq<u8>)>, k: Seq<char>)
    ensures
        find_key(s, k) >= 0 ==> 0 <= find_key(s, k) < s.len() && s[find_key(s, k)].0 == k
            && (forall|j: int| 0 <= j < find_key(s, k) ==> (#[trigger] s[j]).0 != k),
        find_key(s, k) < 0 ==> forall|j: int| 0 <= j < s.len() ==> (#[trigger] s[j]).0 != k,
    decreases s.len(),
{
    if s.len() > 0 && s[0].0 != k {
        lemma_find_key(s.skip(1), k);
        assert forall|j: int| 1 <= j < s.len() implies (#[trigger] s[j]).0 == s.skip(1)[j - 1].0 by {}
    }
}

impl Headers {
    /// The entries as a sequence of (name characters, value bytes).
    pub closed spec fn entries_view(&self) -> Seq<(Seq<char>, Seq<u8>)> {
        self.entries@.map_values(|e: (String, Vec<u8>)| (e.0@, e.1@))
    }

    /// Every key is in canonical form, and no key occurs twice.
    pub open spec fn wf(&self) -> bool {
        let v = self.entries_view();
        (forall|i: int| 0 <= i < v.len() ==> (#[trigger] v[i]).0 == normalize_name(v[i].0))
            && (forall|i: int, j: int|
            0 <= i < j < v.len() ==> (#[trigger] v[i]).0 != (#[trigger] v[j]).0)
    }

    pub fn new() -> (h: Headers)
        ensures
            h.wf(),
            h.entries_view() == Seq::<(Seq<char>, Seq<u8>)>::empty(),
    {
        let h = Headers { entries: Vec::new() };
        proof {
            assert(h.entries_view() =~= Seq::<(Seq<char>, Seq<u8>)>::empty());
        }
        h
    }

    /// How many distinct header names the map holds.
    pub fn len(&self) -> (r: usize)
        ensures
            r == self.entries_view().len(),
    {
        self.entries.len()
    }

    /// The name of the entry at the given position, in canonical form.
    pub fn name_at(&self, i: usize) -> (r: &String)
        requires
            i < self.entries_view().len(),
        ensures
            r@ == self.entries_view()[i as int].0,
    {
        &self.entries[i].0
    }

    /// The value of the entry at the given position.
    pub fn value_at(&self, i: usize) -> (r: &Vec<u8>)
        requires
            i < self.entries_view().len(),
        ensures
            r@ == self.entries_view()[i as int].1,
    {
        &self.entries[i].1
    }

    /// Inserts a header. A new name is appended; a repeated name has a
    /// comma and the new value appended to its existing value.
    pub fn insert(&mut self, key: &str, value: Vec<u8>)
        requires
            old(self).wf(),
        ensures
            final(self).wf(),
            final(self).entries_view() == insert_entry(old(self).entries_view(), key@, value@),
    {
        let normalized = normalize_header_name(key);
        let ghost k = normalize_name(key@);
        let ghost v0 = self.entries_view();
        let ghost val0 = value@;
        let n = self.entries.len();
        let mut i: usize = 0;
        while i < n
            invariant
                i <= n,
                n == self.entries@.len(),
                normalized@ == k,
                value@ == val0,
                k == normalize_name(key@),
                old(self).wf(),
                v0 == old(self).entries_view(),
                v0 == self.entries_view(),
                forall|j: int| 0 <= j < i ==> (#[trigger] v0[j]).0 != k,
            decreases n - i,
        {
            if self.entries[i].0 == normalized {
                proof {
                    lemma_find_key(v0, k);
                    assert(v0[i as int].0 == k);
                    assert(find_key(v0, k) == i);
                }
                let mut value = value;
                self.entries[i].1.push(44);  // b','
                self.entries[i].1.append(&mut value);
                proof {
                    let vnew = self.entries_view();
                    let expected = v0.update(i as int, (k, v0[i as int].1 + seq![44u8] + val0));
                    assert forall|j: int| 0 <= j < vnew.len() implies vnew[j] == expected[j] by {
                        if j == i {
                            assert(vnew[j].1 =~= expected[j].1);
                        }
                    }
                    assert(vnew =~= expected);
                }
                return ;
            }
            i = i + 1;
        }
        proof {
            lemma_find_key(v0, k);
            assert(find_key(v0, k) < 0);
        }
        self.entries.push((normalized, value));
        proof {
            let vnew = self.entries_view();
            let expected = v0.push((k, val0));
            assert forall|j: int| 0 <= j < vnew.len() implies vnew[j] == expected[j] by {}
            assert(vnew =~= expected);
            lemma_normalize_name_idempotent(key@);
        }
    }

    /// Looks a header up by any capitalization of its name.
    pub fn get(&self, key: &str) -> (r: Option<&Vec<u8>>)
        ensures
            ({
                let k = normalize_name(key@);
                let f = find_key(self.entries_view(), k);
                match r {
                    Some(v) => f >= 0 && v@ == self.entries_view()[f].1,
                    None => f < 0,
                }
            }),
    {
        let normalized = normalize_header_name(key);
        let ghost k = normalize_name(key@);
        let ghost v0 = self.entries_view();
        let n = self.entries.len();
        let mut i: usize = 0;
        while i < n
            invariant
                i <= n,
                n == self.entries@.len(),
                normalized@ == k,
                k == normalize_name(key@),
                v0 == self.entries_view(),
                forall|j: int| 0 <= j < i ==> (#[trigger] v0[j]).0 != k,
            decreases n - i,
        {
            if self.entries[i].0 == normalized {
                proof {
                    lemma_find_key(v0, k);
                    assert(v0[i as int].0 == k);
                    assert(find_key(v0, k) == i);
                }
                return Some(&self.entries[i].1);
            }
            i = i + 1;
        }
        proof {
            lemma_find_key(v0, k);
        }
        None
    }
}







} // verus!
