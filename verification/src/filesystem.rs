//! Helpers for filesystem manipulations.

use vstd::prelude::*;

use crate::errors::Error;

verus! {

/// Returns `true` iff the byte is a hexadecimal digit according to ASCII.
pub open spec fn is_hexit_spec(x: u8) -> bool {
    (0x30 <= x && x <= 0x39) || (0x41 <= x && x <= 0x46) || (0x61 <= x && x <= 0x66)
}

/// The value of a hexadecimal digit byte.
pub open spec fn hexit_value(x: u8) -> u8
    recommends
        is_hexit_spec(x),
{
    if 0x30 <= x && x <= 0x39 {
        (x - 0x30) as u8
    } else if 0x41 <= x && x <= 0x46 {
        (x - 0x41 + 10) as u8
    } else {
        (x - 0x61 + 10) as u8
    }
}

/// The byte denoted by the two hex digits of a percent escape.
pub open spec fn percent_decoded(hi: u8, lo: u8) -> u8
    recommends
        is_hexit_spec(hi),
        is_hexit_spec(lo),
{
    (hexit_value(hi) << 4) | hexit_value(lo)
}

/// Normalization of the bytes that follow the leading run of slashes:
/// all but the last slash of each run are dropped, `%HH` escapes with two
/// hex digits become the denoted byte, a `%` without them is an error, and
/// every other byte passes through unchanged.
pub open spec fn normalize_from(p: Seq<u8>) -> Result<Seq<u8>, Error>
    decreases p.len(),
{
    if p.len() == 0 {
        Ok(Seq::empty())
    } else if p[0] == 0x2f && p.len() > 1 && p[1] == 0x2f {
        normalize_from(p.skip(1))
    } else if p[0] == 0x25 {
        if p.len() >= 3 && is_hexit_spec(p[1]) && is_hexit_spec(p[2]) {
            match normalize_from(p.skip(3)) {
                Ok(r) => Ok(seq![percent_decoded(p[1], p[2])] + r),
                Err(e) => Err(e),
            }
        } else {
            Err(Error::IllegalPercentEncoding)
        }
    } else {
        match normalize_from(p.skip(1)) {
            Ok(r) => Ok(seq![p[0]] + r),
            Err(e) => Err(e),
        }
    }
}

/// The suffix of `p` that remains after its leading run of slashes.
pub open spec fn drop_leading_slashes(p: Seq<u8>) -> Seq<u8>
    decreases p.len(),
{
    if p.len() > 0 && p[0] == 0x2f {
        drop_leading_slashes(p.skip(1))
    } else {
        p
    }
}

/// What `normalize_path` returns: a path that does not begin with a slash
/// is rejected; otherwise the leading slashes are stripped and the rest is
/// normalized by `normalize_from`.
pub open spec fn normalize_path_spec(p: Seq<u8>) -> Result<Seq<u8>, Error> {
    if p.len() == 0 || p[0] != 0x2f {
        Err(Error::PathNotInOriginForm)
    } else {
        normalize_from(drop_leading_slashes(p))
    }
}

/// Returns `true` iff the byte is a hexadecimal digit according to ASCII.
pub fn is_hexit(x: u8) -> (r: bool)
    ensures
        r == is_hexit_spec(x),
{
    (0x30 <= x && x <= 0x39) || (0x41 <= x && x <= 0x46) || (0x61 <= x && x <= 0x66)
}

/// Converts from a hexadecimal digit to its value.
pub fn from_hexit(x: u8) -> (r: u8)
    requires
        is_hexit_spec(x),
    ensures
        r == hexit_value(x),
{
    if 0x30 <= x && x <= 0x39 {
        x - 0x30
    } else if 0x41 <= x && x <= 0x46 {
        x - 0x41 + 10
    } else {
        x - 0x61 + 10
    }
}

/// Normalizes a path.
///
/// The following operations are performed:
///
/// 1. Sequences of multiple `'/'` characters are collapsed into a single `'/'`.
/// 2. Any leading `'/'` is stripped. (If the request path does not lead with a
///    slash, the path is ill-formed for our purposes and we return an `Err`.)
/// 3. Percent-encoded bytes are decoded. Bogus percent-encoding, like `b"%bo"`,
///    will return `Err`.
pub fn normalize_path(path: &[u8]) -> (r: Result<Vec<u8>, Error>)
    ensures
        match r {
            Ok(v) => normalize_path_spec(path@) == Ok::<Seq<u8>, Error>(v@),
            Err(e) => normalize_path_spec(path@) == Err::<Seq<u8>, Error>(e),
        },
{
    let n = path.len();

    // Check for a leading `'/'`
    if n == 0 || path[0] != 0x2f {
        return Err(Error::PathNotInOriginForm);
    }

    let mut buffer: Vec<u8> = Vec::new();
    let mut i: usize = 0;

    proof {
        assert(path@.skip(0) =~= path@);
    }

    // skip leading '/' characters
    while i < n && path[i] == 0x2f
        invariant
            n == path@.len(),
            i <= n,
            drop_leading_slashes(path@) == drop_leading_slashes(path@.skip(i as int)),
        decreases n - i,
    {
        proof {
            assert(path@.skip(i as int).skip(1) =~= path@.skip(i + 1));
        }
        i = i + 1;
    }
    proof {
        assert(drop_leading_slashes(path@.skip(i as int)) == path@.skip(i as int));
        if let Ok(r) = normalize_from(path@.skip(i as int)) {
            assert(buffer@ + r =~= r);
        }
    }

    while i < n
        invariant
            n == path@.len(),
            i <= n,
            path@.len() > 0 && path@[0] == 0x2f,
            normalize_path_spec(path@) == match normalize_from(path@.skip(i as int)) {
                Ok(r) => Ok::<Seq<u8>, Error>(buffer@ + r),
                Err(e) => Err::<Seq<u8>, Error>(e),
            },
        decreases n - i,
    {
        let b = path[i];
        let ghost i0 = i;
        if b == 0x2f {
            // drop all but the last slash of this run
            while i + 1 < n && path[i + 1] == 0x2f
                invariant
                    n == path@.len(),
                    i0 <= i < n,
                    path@[i as int] == 0x2f,
                    path@.len() > 0 && path@[0] == 0x2f,
                    normalize_path_spec(path@) == match normalize_from(path@.skip(i as int)) {
                        Ok(r) => Ok::<Seq<u8>, Error>(buffer@ + r),
                        Err(e) => Err::<Seq<u8>, Error>(e),
                    },
                decreases n - i,
            {
                proof {
                    assert(path@.skip(i as int).skip(1) =~= path@.skip(i + 1));
                    assert(path@.skip(i as int)[0] == 0x2f);
                    assert(path@.skip(i as int)[1] == 0x2f);
                }
                i = i + 1;
            }
            proof {
                assert(path@.skip(i as int).skip(1) =~= path@.skip(i + 1));
                assert(path@.skip(i as int)[0] == 0x2f);
                if let Ok(r) = normalize_from(path@.skip(i + 1)) {
                    assert(buffer@ + (seq![0x2fu8] + r) =~= buffer@.push(0x2f) + r);
                }
            }
            buffer.push(0x2f);
            i = i + 1;
        } else if b == 0x25 {
            if n - i < 3 {
                return Err(Error::IllegalPercentEncoding);
            }
            let high_nybble = path[i + 1];
            let low_nybble = path[i + 2];

            if !is_hexit(high_nybble) || !is_hexit(low_nybble) {
                return Err(Error::IllegalPercentEncoding);
            }

            let decoded = from_hexit(high_nybble) << 4 | from_hexit(low_nybble);
            proof {
                assert(path@.skip(i as int).skip(3) =~= path@.skip(i + 3));
                assert(path@.skip(i as int)[0] == 0x25);
                assert(path@.skip(i as int)[1] == high_nybble);
                assert(path@.skip(i as int)[2] == low_nybble);
                if let Ok(r) = normalize_from(path@.skip(i + 3)) {
                    assert(buffer@ + (seq![decoded] + r) =~= buffer@.push(decoded) + r);
                }
            }
            buffer.push(decoded);
            i = i + 3;
        } else {
            proof {
                assert(path@.skip(i as int).skip(1) =~= path@.skip(i + 1));
                assert(path@.skip(i as int)[0] == b);
                if let Ok(r) = normalize_from(path@.skip(i + 1)) {
                    assert(buffer@ + (seq![b] + r) =~= buffer@.push(b) + r);
                }
            }
            buffer.push(b);
            i = i + 1;
        }
    }
    proof {
        assert(path@.skip(i as int) =~= Seq::<u8>::empty());
        assert(buffer@ + Seq::<u8>::empty() =~= buffer@);
    }

    Ok(buffer)
}

/// No byte of the sequence is a percent sign.
pub open spec fn percent_free(p: Seq<u8>) -> bool {
    forall|i: int| 0 <= i < p.len() ==> p[i] != 0x25
}

/// No two adjacent bytes of the sequence are both slashes.
pub open spec fn no_adjacent_slashes(r: Seq<u8>) -> bool {
    forall|i: int| 0 <= i < r.len() - 1 ==> !((#[trigger] r[i]) == 0x2f && r[i + 1] == 0x2f)
}

proof fn lemma_normalize_from_props(p: Seq<u8>)
    requires
        percent_free(p),
    ensures
        normalize_from(p) is Ok,
        ({
            let r = normalize_from(p)->Ok_0;
            no_adjacent_slashes(r) && (r.len() > 0 ==> p.len() > 0 && r[0] == p[0]) && (p.len() > 0
                ==> r.len() > 0)
        }),
    decreases p.len(),
{
    if p.len() > 0 {
        assert(forall|i: int| 0 <= i < p.skip(1).len() ==> #[trigger] p.skip(1)[i] == p[i + 1]);
        lemma_normalize_from_props(p.skip(1));
        let r1 = normalize_from(p.skip(1))->Ok_0;
        if p[0] == 0x2f && p.len() > 1 && p[1] == 0x2f {
            // this slash is dropped
        } else {
            let r = normalize_from(p)->Ok_0;
            assert(r == seq![p[0]] + r1);
            assert(r[0] == p[0]);
            assert forall|i: int| 0 <= i < r.len() - 1 implies !((#[trigger] r[i]) == 0x2f && r[i
                + 1] == 0x2f) by {
                if i == 0 {
                    if r.len() > 1 {
                        assert(r[1] == r1[0]);
                        if p[0] == 0x2f {
                            // the next slash of the input was dropped, so the
                            // next emitted byte differs
                            assert(r1[0] == p.skip(1)[0]);
                        }
                    }
                } else {
                    assert(r[i] == r1[i - 1] && r[i + 1] == r1[i]);
                }
            }
        }
    }
}

/// For a request path free of percent escapes, normalization always
/// succeeds, strips every leading slash, and collapses the rest: the
/// result never begins with a slash and never holds two adjacent slashes.
/// (A path with escapes can decode new slashes: normalizing `/%2Fa`
/// yields a leading slash, so escaped inputs are left out here; what they
/// decode to is pinned exactly by `normalize_path_spec`.)
pub proof fn lemma_normalize_path_shape(p: Seq<u8>)
    requires
        p.len() > 0,
        p[0] == 0x2f,
        percent_free(p),
    ensures
        normalize_path_spec(p) is Ok,
        ({
            let r = normalize_path_spec(p)->Ok_0;
            (r.len() > 0 ==> r[0] != 0x2f) && no_adjacent_slashes(r)
        }),
{
    lemma_drop_leading_props(p);
    let q = drop_leading_slashes(p);
    lemma_normalize_from_props(q);
}

proof fn lemma_drop_leading_props(p: Seq<u8>)
    requires
        percent_free(p),
    ensures
        percent_free(drop_leading_slashes(p)),
        drop_leading_slashes(p).len() > 0 ==> drop_leading_slashes(p)[0] != 0x2f,
    decreases p.len(),
{
    if p.len() > 0 && p[0] == 0x2f {
        assert(forall|i: int| 0 <= i < p.skip(1).len() ==> #[trigger] p.skip(1)[i] == p[i + 1]);
        lemma_drop_leading_props(p.skip(1));
    }
}

/// Every two-digit percent escape decodes to exactly the byte its digits
/// denote: a path holding one escape and nothing else normalizes to that
/// one byte.
pub proof fn lemma_percent_escape_decodes(hi: u8, lo: u8)
    requires
        is_hexit_spec(hi),
        is_hexit_spec(lo),
    ensures
        normalize_path_spec(seq![0x2fu8, 0x25u8, hi, lo]) == Ok::<Seq<u8>, Error>(
            seq![percent_decoded(hi, lo)],
        ),
{
    let p = seq![0x2fu8, 0x25u8, hi, lo];
    let q = seq![0x25u8, hi, lo];
    assert(p.skip(1) =~= q);
    assert(drop_leading_slashes(p) == drop_leading_slashes(p.skip(1)));
    assert(drop_leading_slashes(q) == q);
    assert(q.skip(3) =~= Seq::<u8>::empty());
    assert(q[0] == 0x25 && q[1] == hi && q[2] == lo);
    assert(normalize_from(Seq::<u8>::empty()) == Ok::<Seq<u8>, Error>(Seq::empty()));
    assert(normalize_from(q) == Ok::<Seq<u8>, Error>(
        seq![percent_decoded(hi, lo)] + Seq::<u8>::empty(),
    ));
    assert(seq![percent_decoded(hi, lo)] + Seq::<u8>::empty() =~= seq![percent_decoded(hi, lo)]);
}


} // verus!
