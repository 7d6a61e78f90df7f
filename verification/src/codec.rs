//! The wire codec. A command is encoded as an array of length-prefixed
//! byte strings: the verb first, then the arguments in list order. A reply
//! is decoded from a self-describing type-tagged grammar: simple strings,
//! errors, integers, doubles, booleans, null, bulk strings, arrays, maps
//! and sets. The decoder tells an incomplete frame (buffer more bytes)
//! apart from a malformed one.

use vstd::prelude::*;
use crate::command::Command;
use crate::digits::{dec_digits, format_u64};

verus! {

broadcast use vstd::seq::axiom_seq_index_decreases, vstd::std_specs::vec::axiom_vec_decreases_to_view;

/// A decoded reply. Produced only by decoding; an `Error` value must never
/// be treated as a success value. A double's decimal text is kept as the
/// peer sent it.
#[derive(PartialEq, Eq, Debug)]
pub enum Value {
    Null,
    Integer(i64),
    Double(Vec<u8>),
    Boolean(bool),
    BulkString(Vec<u8>),
    SimpleString(Vec<u8>),
    Array(Vec<Value>),
    MapPairs(Vec<(Value, Value)>),
    SetItems(Vec<Value>),
    Error(Vec<u8>),
}

/// The mathematical shape of a reply: what a [`Value`] holds, over
/// sequences and unbounded integers.
pub enum ReplyValue {
    Null,
    Integer(int),
    Double(Seq<u8>),
    Boolean(bool),
    BulkString(Seq<u8>),
    SimpleString(Seq<u8>),
    Array(Seq<ReplyValue>),
    MapPairs(Seq<(ReplyValue, ReplyValue)>),
    SetItems(Seq<ReplyValue>),
    Error(Seq<u8>),
}

/// The reply a [`Value`] denotes.
pub open spec fn value_view(v: Value) -> ReplyValue
    decreases v, 0int via value_view_decreases
{
    match v {
        Value::Null => ReplyValue::Null,
        Value::Integer(i) => ReplyValue::Integer(i as int),
        Value::Double(d) => ReplyValue::Double(d@),
        Value::Boolean(b) => ReplyValue::Boolean(b),
        Value::BulkString(b) => ReplyValue::BulkString(b@),
        Value::SimpleString(s) => ReplyValue::SimpleString(s@),
        Value::Array(vs) => ReplyValue::Array(values_view(vs@)),
        Value::MapPairs(ps) => ReplyValue::MapPairs(pairs_view(ps@)),
        Value::SetItems(vs) => ReplyValue::SetItems(values_view(vs@)),
        Value::Error(e) => ReplyValue::Error(e@),
    }
}

#[via_fn]
proof fn value_view_decreases(v: Value) {
    match v {
        Value::Array(vs) => {
            assert(decreases_to!(v => vs));
            assert(decreases_to!(vs => vs@));
        },
        Value::MapPairs(ps) => {
            assert(decreases_to!(v => ps));
            assert(decreases_to!(ps => ps@));
        },
        Value::SetItems(vs) => {
            assert(decreases_to!(v => vs));
            assert(decreases_to!(vs => vs@));
        },
        _ => {},
    }
}

/// The replies a sequence of values denotes, in order.
pub open spec fn values_view(s: Seq<Value>) -> Seq<ReplyValue>
    decreases s, 1int
{
    if s.len() <= 0 {
        Seq::empty()
    } else {
        seq![value_view(s[0])] + values_view(s.subrange(1, s.len() as int))
    }
}

/// The reply pairs a sequence of value pairs denotes, in order.
pub open spec fn pairs_view(s: Seq<(Value, Value)>) -> Seq<(ReplyValue, ReplyValue)>
    decreases s, 1int via pairs_view_decreases
{
    if s.len() <= 0 {
        Seq::empty()
    } else {
        seq![(value_view(s[0].0), value_view(s[0].1))] + pairs_view(
            s.subrange(1, s.len() as int),
        )
    }
}

#[via_fn]
proof fn pairs_view_decreases(s: Seq<(Value, Value)>) {
    if s.len() > 0 {
        assert(decreases_to!(s => s[0]));
    }
}

/// The view of a value sequence is the view of each, in place.
pub proof fn lemma_values_view_index(s: Seq<Value>)
    ensures
        values_view(s).len() == s.len(),
        forall|i: int| 0 <= i < s.len() ==> values_view(s)[i] == value_view(#[trigger] s[i]),
    decreases s.len(),
{
    if s.len() > 0 {
        let tail = s.subrange(1, s.len() as int);
        lemma_values_view_index(tail);
        assert forall|i: int| 0 <= i < s.len() implies values_view(s)[i] == value_view(s[i]) by {
            if i > 0 {
                assert(values_view(s)[i] == values_view(tail)[i - 1]);
                assert(tail[i - 1] == s[i]);
            }
        }
    }
}

/// The view of a pair sequence is the view of each pair, in place.
pub proof fn lemma_pairs_view_index(s: Seq<(Value, Value)>)
    ensures
        pairs_view(s).len() == s.len(),
        forall|i: int| 0 <= i < s.len() ==> pairs_view(s)[i] == (
            value_view(#[trigger] s[i].0),
            value_view(s[i].1),
        ),
    decreases s.len(),
{
    if s.len() > 0 {
        let tail = s.subrange(1, s.len() as int);
        lemma_pairs_view_index(tail);
        assert forall|i: int| 0 <= i < s.len() implies pairs_view(s)[i] == (
            value_view(s[i].0),
            value_view(s[i].1),
        ) by {
            if i > 0 {
                assert(pairs_view(s)[i] == pairs_view(tail)[i - 1]);
                assert(tail[i - 1] == s[i]);
            }
        }
    }
}

/// The frame terminator.
pub open spec fn crlf() -> Seq<u8> {
    seq![13u8, 10u8]
}

/// The encoding of one length-prefixed byte string.
pub open spec fn enc_bulk(b: Seq<u8>) -> Seq<u8> {
    seq![36u8] + dec_digits(b.len()) + crlf() + b + crlf()
}

/// The encodings of a list of byte strings, concatenated in order.
pub open spec fn enc_bulks(items: Seq<Seq<u8>>) -> Seq<u8>
    decreases items.len(),
{
    if items.len() == 0 {
        Seq::empty()
    } else {
        enc_bulk(items[0]) + enc_bulks(items.drop_first())
    }
}

/// The wire bytes of a whole command: an array header counting the verb
/// and every argument, then each as a length-prefixed byte string.
pub open spec fn enc_command(name: Seq<u8>, args: Seq<Seq<u8>>) -> Seq<u8> {
    seq![42u8] + dec_digits((args.len() + 1) as nat) + crlf() + enc_bulk(name) + enc_bulks(args)
}

/// Splitting a list of byte strings splits their encodings likewise.
pub proof fn lemma_enc_bulks_concat(a: Seq<Seq<u8>>, b: Seq<Seq<u8>>)
    ensures
        enc_bulks(a + b) == enc_bulks(a) + enc_bulks(b),
    decreases a.len(),
{
    if a.len() == 0 {
        assert(a + b =~= b);
        assert(enc_bulks(a) + enc_bulks(b) =~= enc_bulks(b));
    } else {
        lemma_enc_bulks_concat(a.drop_first(), b);
        assert((a + b).drop_first() =~= a.drop_first() + b);
        assert((a + b)[0] == a[0]);
        assert(enc_bulks(a + b) =~= enc_bulks(a) + enc_bulks(b));
    }
}

/// Encoding one more byte string appends exactly its encoding.
pub proof fn lemma_enc_bulks_take_succ(items: Seq<Seq<u8>>, i: int)
    requires
        0 <= i < items.len(),
    ensures
        enc_bulks(items.take(i + 1)) == enc_bulks(items.take(i)) + enc_bulk(items[i]),
{
    assert(items.take(i + 1) =~= items.take(i) + seq![items[i]]);
    lemma_enc_bulks_concat(items.take(i), seq![items[i]]);
    assert(seq![items[i]].drop_first() =~= Seq::<Seq<u8>>::empty());
    assert(seq![items[i]][0] == items[i]);
    assert(enc_bulks(Seq::<Seq<u8>>::empty()) =~= Seq::<u8>::empty());
    assert(enc_bulks(seq![items[i]]) =~= enc_bulk(items[i]));
}

/// Append a byte slice.
fn push_bytes(out: &mut Vec<u8>, b: &[u8])
    ensures
        final(out)@ == old(out)@ + b@,
{
    let n = b.len();
    let mut i: usize = 0;
    while i < n
        invariant
            n == b@.len(),
            i <= n,
            out@ == old(out)@ + b@.take(i as int),
        decreases n - i,
    {
        out.push(b[i]);
        proof {
            assert(out@ =~= old(out)@ + b@.take(i as int + 1));
        }
        i += 1;
    }
    proof {
        assert(b@.take(n as int) =~= b@);
    }
}

/// Append the frame terminator.
fn push_crlf(out: &mut Vec<u8>)
    ensures
        final(out)@ == old(out)@ + crlf(),
{
    out.push(13);
    out.push(10);
    proof {
        assert(out@ =~= old(out)@ + crlf());
    }
}

/// Append one length-prefixed byte string.
fn push_bulk(out: &mut Vec<u8>, b: &[u8])
    ensures
        final(out)@ == old(out)@ + enc_bulk(b@),
{
    out.push(36);
    let len_bytes = format_u64(b.len() as u64);
    push_bytes(out, len_bytes.as_slice());
    push_crlf(out);
    push_bytes(out, b);
    push_crlf(out);
    proof {
        assert(out@ =~= old(out)@ + enc_bulk(b@));
    }
}

/// Encode a command into its wire bytes.
pub fn encode_command(c: &Command) -> (r: Vec<u8>)
    requires
        c.args_view().len() < usize::MAX as nat,
    ensures
        r@ == enc_command(c.name_view(), c.args_view()),
{
    let mut out: Vec<u8> = Vec::new();
    out.push(42);
    let n = c.num_args();
    let count_bytes = format_u64(n as u64 + 1);
    push_bytes(&mut out, count_bytes.as_slice());
    push_crlf(&mut out);
    push_bulk(&mut out, c.name_bytes().as_slice());
    let ghost header = out@;
    let mut i: usize = 0;
    while i < n
        invariant
            n == c.args_view().len(),
            i <= n,
            out@ == header + enc_bulks(c.args_view().take(i as int)),
        decreases n - i,
    {
        push_bulk(&mut out, c.get_arg(i).as_slice());
        proof {
            lemma_enc_bulks_take_succ(c.args_view(), i as int);
        }
        i += 1;
    }
    proof {
        assert(c.args_view().take(n as int) =~= c.args_view());
        assert(out@ =~= enc_command(c.name_view(), c.args_view()));
    }
    out
}

} // verus!
