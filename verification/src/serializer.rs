//! Serialization of FastCGI messages.
//!
//! Every function appends the exact wire bytes of one or more records to an
//! output buffer; the caller sends the buffer over the upstream socket.

use vstd::prelude::*;

use crate::errors::{Error, SerializationError};
use crate::fastcgi::{
    be16, be32, header_bytes, len_prefix, pair_bytes, pairs_bytes, padding_of, record_model_bytes,
    zeros, lemma_pairs_bytes_push, lemma_pairs_bytes_split, ContentModel, RecordModel, Role,
    BEGIN_REQUEST, GET_VALUES, KEEP_CONN, PARAMS, STDIN,
};

verus! {

/// Appends a 16-bit number in big-endian order.
fn push_be16(out: &mut Vec<u8>, x: u16)
    ensures
        final(out)@ == old(out)@ + be16(x),
{
    out.push((x / 256) as u8);
    out.push((x % 256) as u8);
    proof {
        assert(out@ =~= old(out)@ + be16(x));
    }
}

/// Appends a 32-bit number in big-endian order.
fn push_be32(out: &mut Vec<u8>, x: u32)
    ensures
        final(out)@ == old(out)@ + be32(x),
{
    out.push((x / 0x1000000) as u8);
    out.push(((x / 0x10000) % 256) as u8);
    out.push(((x / 256) % 256) as u8);
    out.push((x % 256) as u8);
    proof {
        assert(out@ =~= old(out)@ + be32(x));
    }
}

/// Appends a run of zero bytes.
fn push_zeros(out: &mut Vec<u8>, n: usize)
    ensures
        final(out)@ == old(out)@ + zeros(n as int),
    decreases n,
{
    let mut i: usize = 0;
    while i < n
        invariant
            i <= n,
            out@ == old(out)@ + zeros(i as int),
        decreases n - i,
    {
        proof {
            assert((old(out)@ + zeros(i as int)).push(0u8) =~= old(out)@ + zeros(i + 1));
        }
        out.push(0);
        i = i + 1;
    }
    proof {
        assert(out@ =~= old(out)@ + zeros(n as int));
    }
}

/// Appends the 8-byte record header; the content length must already be
/// known to fit. Returns the number of padding bytes the header announced.
fn push_header(out: &mut Vec<u8>, kind: u8, id: u16, content_length: u16) -> (p: u8)
    ensures
        final(out)@ == old(out)@ + header_bytes(kind, id, content_length),
        p == padding_of(content_length as int),
{
    let padding_length: u8 = if content_length % 8 == 0 {
        0
    } else {
        (8 - content_length % 8) as u8
    };
    out.push(1);
    out.push(kind);
    push_be16(out, id);
    push_be16(out, content_length);
    out.push(padding_length);
    out.push(0);  // reserved byte
    proof {
        assert(out@ =~= old(out)@ + header_bytes(kind, id, content_length));
    }
    padding_length
}

/// Writes a header from its bits.
///
/// If successful, returns the number of bytes of padding we told the other
/// end of the connection we were going to write.
fn write_header(out: &mut Vec<u8>, kind: u8, id: u16, content_length: usize) -> (r: Result<
    u8,
    Error,
>)
    ensures
        content_length <= 0xffff ==> (match r {
            Ok(p) => final(out)@ == old(out)@ + header_bytes(kind, id, content_length as u16) && p
                == padding_of(content_length as int),
            Err(_) => false,
        }),
        content_length > 0xffff ==> (match r {
            Ok(_) => false,
            Err(e) => e == Error::Serialization(SerializationError::TooLong) && final(out)@ == old(out)@,
        }),
{
    if content_length > 0xffff {
        return Err(Error::Serialization(SerializationError::TooLong));
    }
    Ok(push_header(out, kind, id, content_length as u16))
}

/// Appends one name-value pair; both lengths must already be known to be
/// encodable in four bytes.
fn push_pair(out: &mut Vec<u8>, name: &[u8], val: &[u8])
    requires
        name@.len() <= 0x7fffffff,
        val@.len() <= 0x7fffffff,
    ensures
        final(out)@ == old(out)@ + pair_bytes((name@, val@)),
{
    if name.len() > 127 {
        push_be32(out, name.len() as u32 + 0x80000000);
    } else {
        out.push(name.len() as u8);
    }
    if val.len() > 127 {
        push_be32(out, val.len() as u32 + 0x80000000);
    } else {
        out.push(val.len() as u8);
    }
    out.extend_from_slice(name);
    out.extend_from_slice(val);
    proof {
        assert(out@ =~= old(out)@ + pair_bytes((name@, val@)));
    }
}

/// Computes the number of bytes a name or value will take up on the wire
/// once serialized into the FastCGI name-value pair format.
pub fn name_length(val: &[u8]) -> (r: usize)
    requires
        val@.len() + 4 <= usize::MAX,
    ensures
        r == val@.len() + len_prefix(val@.len() as int).len(),
{
    let length = val.len();
    let length_length: usize = if length > 127 {
        4
    } else {
        1
    };
    length + length_length
}

/// The views of a list of byte vectors.
pub open spec fn vecs_view(s: Seq<Vec<u8>>) -> Seq<Seq<u8>> {
    s.map_values(|v: Vec<u8>| v@)
}

/// Each name turned into a pair with an empty value, as a `GetValues`
/// record carries them.
pub open spec fn names_as_pairs(names: Seq<Seq<u8>>) -> Seq<(Seq<u8>, Seq<u8>)> {
    names.map_values(|n: Seq<u8>| (n, Seq::<u8>::empty()))
}

/// Writes a `GetValues` management record (request id 0) to the output
/// stream, asking the application server for the named values.
pub fn get_values(out: &mut Vec<u8>, get_for: &Vec<Vec<u8>>) -> (r: Result<(), Error>)
    ensures
        pairs_bytes(names_as_pairs(vecs_view(get_for@))).len() <= 0xffff ==> (match r {
            Ok(_) => final(out)@ == old(out)@ + record_model_bytes(
                RecordModel {
                    id: 0,
                    content: ContentModel::GetValues(names_as_pairs(vecs_view(get_for@))),
                },
            ),
            Err(_) => false,
        }),
        pairs_bytes(names_as_pairs(vecs_view(get_for@))).len() > 0xffff ==> (match r {
            Ok(_) => false,
            Err(e) => e == Error::Serialization(SerializationError::TooLong) && final(out)@ == old(out)@,
        }),
{
    let ghost ps = names_as_pairs(vecs_view(get_for@));
    let n = get_for.len();
    let mut content_length: usize = 0;
    let mut i: usize = 0;
    while i < n
        invariant
            i <= n,
            n == get_for@.len(),
            ps == names_as_pairs(vecs_view(get_for@)),
            content_length == pairs_bytes(ps.take(i as int)).len(),
            content_length <= 0xffff,
        decreases n - i,
    {
        let name_len = get_for[i].len();
        proof {
            assert(ps[i as int] == (get_for@[i as int]@, Seq::<u8>::empty()));
            assert(ps.take(i + 1) =~= ps.take(i as int).push(ps[i as int]));
            lemma_pairs_bytes_push(ps.take(i as int), ps[i as int]);
        }
        if name_len > 0xffff {
            proof {
                lemma_pairs_bytes_split(ps, i + 1);
            }
            return Err(Error::Serialization(SerializationError::TooLong));
        }
        let entry_len = name_length(&get_for[i]) + 1;
        if content_length + entry_len > 0xffff {
            proof {
                lemma_pairs_bytes_split(ps, i + 1);
            }
            return Err(Error::Serialization(SerializationError::TooLong));
        }
        content_length = content_length + entry_len;
        i = i + 1;
    }
    proof {
        assert(ps.take(n as int) =~= ps);
    }

    let ghost out0 = out@;
    let padding_length = push_header(out, GET_VALUES, 0, content_length as u16);

    let empty_val: Vec<u8> = Vec::new();
    let mut j: usize = 0;
    while j < n
        invariant
            j <= n,
            n == get_for@.len(),
            ps == names_as_pairs(vecs_view(get_for@)),
            pairs_bytes(ps).len() <= 0xffff,
            empty_val@.len() == 0,
            out@ == out0 + header_bytes(GET_VALUES, 0, pairs_bytes(ps).len() as u16)
                + pairs_bytes(ps.take(j as int)),
            padding_length == padding_of(pairs_bytes(ps).len() as int),
        decreases n - j,
    {
        proof {
            assert(ps[j as int] == (get_for@[j as int]@, Seq::<u8>::empty()));
            assert(ps[j as int].0.len() <= 0xffff) by {
                lemma_pairs_bytes_split(ps, j as int);
                lemma_pairs_bytes_split(ps.skip(j as int), 1);
                assert(ps.skip(j as int).take(1) =~= seq![ps[j as int]]);
                assert(pairs_bytes(seq![ps[j as int]]) =~= pair_bytes(ps[j as int]) + pairs_bytes(
                    seq![ps[j as int]].skip(1),
                ));
                assert(seq![ps[j as int]].skip(1) =~= Seq::<(Seq<u8>, Seq<u8>)>::empty());
            };
            assert(ps.take(j + 1) =~= ps.take(j as int).push(ps[j as int]));
            lemma_pairs_bytes_push(ps.take(j as int), ps[j as int]);
        }
        push_pair(out, get_for[j].as_slice(), empty_val.as_slice());
        proof {
            assert(out@ =~= out0 + header_bytes(GET_VALUES, 0, pairs_bytes(ps).len() as u16)
                + pairs_bytes(ps.take(j + 1)));
        }
        j = j + 1;
    }
    proof {
        assert(ps.take(n as int) =~= ps);
    }

    push_zeros(out, padding_length as usize);
    proof {
        assert(out@ =~= out0 + record_model_bytes(
            RecordModel { id: 0, content: ContentModel::GetValues(ps) },
        ));
    }

    Ok(())
}

/// Write a `BeginRequest` message.
///
/// This is specialized for the Responder role, with the `KEEP_CONN` flag
/// set.
pub fn start_request(out: &mut Vec<u8>, id: u16)
    ensures
        final(out)@ == old(out)@ + record_model_bytes(
            RecordModel {
                id: id,
                content: ContentModel::BeginRequest { role: Role::Responder, flags: KEEP_CONN },
            },
        ),
{
    let ghost out0 = out@;
    let _ = push_header(out, BEGIN_REQUEST, id, 8);
    push_be16(out, Role::Responder.to_protocol_number());
    out.push(KEEP_CONN);
    push_zeros(out, 5);  // reserved
    proof {
        assert(out@ =~= out0 + record_model_bytes(
            RecordModel {
                id: id,
                content: ContentModel::BeginRequest { role: Role::Responder, flags: KEEP_CONN },
            },
        ));
    }
}

/// The views of a list of name-value tuples.
pub open spec fn tuples_view(s: Seq<(Vec<u8>, Vec<u8>)>) -> Seq<(Seq<u8>, Seq<u8>)> {
    s.map_values(|p: (Vec<u8>, Vec<u8>)| (p.0@, p.1@))
}

/// A parameter list is serializable when every single pair fits in one
/// record's content.
pub open spec fn params_wf(ps: Seq<(Seq<u8>, Seq<u8>)>) -> bool {
    forall|i: int| 0 <= i < ps.len() ==> (#[trigger] pair_bytes(ps[i])).len() <= 0xffff
}

/// How many leading pairs fit in the given budget of content bytes.
pub open spec fn greedy_take(ps: Seq<(Seq<u8>, Seq<u8>)>, budget: int) -> int
    decreases ps.len(),
{
    if ps.len() == 0 {
        0
    } else if pair_bytes(ps[0]).len() <= budget {
        1 + greedy_take(ps.skip(1), budget - pair_bytes(ps[0]).len())
    } else {
        0
    }
}

/// The pairs are cut greedily into records of at most 65,535 content
/// bytes, and the stream ends with an empty `Params` record.
pub open spec fn params_stream_bytes(id: u16, ps: Seq<(Seq<u8>, Seq<u8>)>) -> Seq<u8>
    decreases ps.len(),
{
    if ps.len() == 0 {
        record_model_bytes(
            RecordModel { id: id, content: ContentModel::Params(Seq::empty()) },
        )
    } else {
        let g = greedy_take(ps, 0xffff);
        let k = if g < 1 {
            1
        } else if g > ps.len() {
            ps.len() as int
        } else {
            g
        };
        record_model_bytes(RecordModel { id: id, content: ContentModel::Params(ps.take(k)) })
            + params_stream_bytes(id, ps.skip(k))
    }
}

/// The greedy cut never takes more pairs than there are.
proof fn lemma_greedy_take_bounds(ps: Seq<(Seq<u8>, Seq<u8>)>, budget: int)
    ensures
        0 <= greedy_take(ps, budget) <= ps.len(),
    decreases ps.len(),
{
    if ps.len() > 0 && pair_bytes(ps[0]).len() <= budget {
        lemma_greedy_take_bounds(ps.skip(1), budget - pair_bytes(ps[0]).len());
    }
}

/// Write a stream of parameters.
///
/// The list is split into as many `Params` records as its size requires,
/// and the stream-terminating empty record is emitted as well. A single
/// pair too large for one record's content cannot be sent at all.
pub fn params(out: &mut Vec<u8>, id: u16, params_list: &Vec<(Vec<u8>, Vec<u8>)>) -> (r: Result<
    (),
    Error,
>)
    ensures
        params_wf(tuples_view(params_list@)) ==> (match r {
            Ok(_) => final(out)@ == old(out)@ + params_stream_bytes(id, tuples_view(params_list@)),
            Err(_) => false,
        }),
        !params_wf(tuples_view(params_list@)) ==> (match r {
            Ok(_) => false,
            Err(e) => e == Error::Serialization(SerializationError::TooLong) && final(out)@ == old(out)@,
        }),
{
    let ghost vs = tuples_view(params_list@);
    let n = params_list.len();

    // check every pair fits one record before writing anything
    let mut i: usize = 0;
    while i < n
        invariant
            i <= n,
            n == params_list@.len(),
            vs == tuples_view(params_list@),
            out@ == old(out)@,
            forall|k: int| 0 <= k < i ==> (#[trigger] pair_bytes(vs[k])).len() <= 0xffff,
        decreases n - i,
    {
        proof {
            assert(vs[i as int] == (params_list@[i as int].0@, params_list@[i as int].1@));
            assert(pair_bytes(vs[i as int]).len() >= vs[i as int].0.len() + vs[i as int].1.len());
        }
        let name_len = params_list[i].0.len();
        let val_len = params_list[i].1.len();
        if name_len > 0xffff || val_len > 0xffff {
            return Err(Error::Serialization(SerializationError::TooLong));
        }
        let enc: usize = name_len + val_len + (if name_len > 127 {
            4
        } else {
            1
        }) + (if val_len > 127 {
            4
        } else {
            1
        });
        if enc > 0xffff {
            return Err(Error::Serialization(SerializationError::TooLong));
        }
        proof {
            assert(pair_bytes(vs[i as int]).len() == enc);
        }
        i = i + 1;
    }
    assert(params_wf(vs));

    let ghost out0 = out@;
    proof {
        assert(vs.skip(0) =~= vs);
    }
    let mut i: usize = 0;
    while i < n
        invariant
            i <= n,
            n == params_list@.len(),
            vs == tuples_view(params_list@),
            params_wf(vs),
            out0 + params_stream_bytes(id, vs) == out@ + params_stream_bytes(
                id,
                vs.skip(i as int),
            ),
        decreases n - i,
    {
        let ghost i_start = i;
        let start = i;
        let mut batch_len: usize = 0;
        proof {
            assert(vs.subrange(start as int, start as int) =~= Seq::<(Seq<u8>, Seq<u8>)>::empty());
        }
        loop
            invariant
                start <= i <= n,
                n == params_list@.len(),
                vs == tuples_view(params_list@),
                params_wf(vs),
                start == i_start,
                start < n,
                batch_len <= 0xffff,
                batch_len == pairs_bytes(vs.subrange(start as int, i as int)).len(),
                greedy_take(vs.skip(start as int), 0xffff) == (i - start) + greedy_take(
                    vs.skip(i as int),
                    0xffff - batch_len,
                ),
            ensures
                start <= i <= n,
                start < i,
                batch_len <= 0xffff,
                batch_len == pairs_bytes(vs.subrange(start as int, i as int)).len(),
                greedy_take(vs.skip(start as int), 0xffff) == i - start,
            decreases n - i,
        {
            if i >= n {
                proof {
                    assert(vs.skip(i as int) =~= Seq::<(Seq<u8>, Seq<u8>)>::empty());
                }
                break ;
            }
            proof {
                assert(vs[i as int] == (params_list@[i as int].0@, params_list@[i as int].1@));
                assert(vs.skip(i as int)[0] == vs[i as int]);
            }
            let name_len = params_list[i].0.len();
            let val_len = params_list[i].1.len();
            let enc: usize = name_len + val_len + (if name_len > 127 {
                4
            } else {
                1
            }) + (if val_len > 127 {
                4
            } else {
                1
            });
            proof {
                assert(pair_bytes(vs[i as int]).len() == enc);
            }
            if batch_len + enc > 0xffff {
                break ;
            }
            proof {
                assert(vs.subrange(start as int, i + 1) =~= vs.subrange(
                    start as int,
                    i as int,
                ).push(vs[i as int]));
                lemma_pairs_bytes_push(vs.subrange(start as int, i as int), vs[i as int]);
                assert(vs.skip(i as int).skip(1) =~= vs.skip(i + 1));
            }
            batch_len = batch_len + enc;
            i = i + 1;
        }

        // at least the first pair fits, so the batch is never empty
        let ghost k = (i - i_start) as int;
        proof {
            lemma_greedy_take_bounds(vs.skip(i_start as int), 0xffff);
            assert(vs.skip(i_start as int).take(k) =~= vs.subrange(i_start as int, i as int));
            assert(vs.skip(i_start as int).skip(k) =~= vs.skip(i as int));
        }

        let ghost out_batch = out@;
        let padding_length = push_header(out, PARAMS, id, batch_len as u16);
        let mut j = start;
        while j < i
            invariant
                start <= j <= i <= n,
                n == params_list@.len(),
                vs == tuples_view(params_list@),
                params_wf(vs),
                batch_len == pairs_bytes(vs.subrange(start as int, i as int)).len(),
                batch_len <= 0xffff,
                padding_length == padding_of(batch_len as int),
                out@ == out_batch + header_bytes(PARAMS, id, batch_len as u16) + pairs_bytes(
                    vs.subrange(start as int, j as int),
                ),
            decreases i - j,
        {
            proof {
                assert(vs[j as int] == (params_list@[j as int].0@, params_list@[j as int].1@));
                assert(vs.subrange(start as int, j + 1) =~= vs.subrange(
                    start as int,
                    j as int,
                ).push(vs[j as int]));
                lemma_pairs_bytes_push(vs.subrange(start as int, j as int), vs[j as int]);
                lemma_pairs_bytes_split(vs.subrange(start as int, i as int), j + 1 - start);
                assert(vs.subrange(start as int, i as int).take(j + 1 - start) =~= vs.subrange(
                    start as int,
                    j + 1,
                ));
            }
            push_pair(out, params_list[j].0.as_slice(), params_list[j].1.as_slice());
            proof {
                assert(out@ =~= out_batch + header_bytes(PARAMS, id, batch_len as u16)
                    + pairs_bytes(vs.subrange(start as int, j + 1)));
            }
            j = j + 1;
        }
        push_zeros(out, padding_length as usize);
        proof {
            assert(out@ =~= out_batch + record_model_bytes(
                RecordModel {
                    id: id,
                    content: ContentModel::Params(vs.subrange(i_start as int, i as int)),
                },
            ));
            assert(out0 + params_stream_bytes(id, vs) =~= out@ + params_stream_bytes(
                id,
                vs.skip(i as int),
            ));
        }
    }
    proof {
        assert(vs.skip(n as int) =~= Seq::<(Seq<u8>, Seq<u8>)>::empty());
    }

    // the stream-terminating empty record
    let ghost out_term = out@;
    let _ = push_header(out, PARAMS, id, 0);
    proof {
        assert(out@ =~= out_term + record_model_bytes(
            RecordModel { id: id, content: ContentModel::Params(Seq::empty()) },
        ));
    }
    Ok(())
}

/// Write a frame of a `Stdin` stream.
pub fn stdin(out: &mut Vec<u8>, id: u16, content: &[u8]) -> (r: Result<(), Error>)
    ensures
        content@.len() <= 0xffff ==> (match r {
            Ok(_) => final(out)@ == old(out)@ + record_model_bytes(
                RecordModel { id: id, content: ContentModel::Stdin(content@) },
            ),
            Err(_) => false,
        }),
        content@.len() > 0xffff ==> (match r {
            Ok(_) => false,
            Err(e) => e == Error::Serialization(SerializationError::TooLong) && final(out)@ == old(out)@,
        }),
{
    let ghost out0 = out@;
    let padding_length = match write_header(out, STDIN, id, content.len()) {
        Ok(p) => p,
        Err(e) => {
            return Err(e);
        },
    };
    out.extend_from_slice(content);
    push_zeros(out, padding_length as usize);
    proof {
        assert(out@ =~= out0 + record_model_bytes(
            RecordModel { id: id, content: ContentModel::Stdin(content@) },
        ));
    }
    Ok(())
}

} // verus!
