//! Reply decoding: the type-tagged wire grammar, stated as a recursive
//! specification, and a verified incremental decoder that follows it
//! exactly. The decoder consumes one complete frame from the front of a
//! buffer, reports that more bytes are needed, or rejects a malformed
//! frame; it never misreads a partial frame.

use vstd::prelude::*;
use crate::codec::{
    crlf, enc_bulk, enc_bulks, enc_command, lemma_enc_bulks_concat, lemma_pairs_view_index,
    lemma_values_view_index, pairs_view, value_view, values_view, ReplyValue, Value,
};
use crate::digits::{
    all_digits, dec_digits, digits_val, is_canonical_digits, is_digit, lemma_dec_digits_len_20,
    lemma_digits_val_lower,
    lemma_digits_val_upper, lemma_pow10_20_fits, lemma_pow10_le, pow10,
};

verus! {

/// The decoding outcome of a byte prefix: a complete reply and its
/// frame's byte count, more bytes needed, or a malformed frame.
pub enum Decoded {
    Complete(ReplyValue, int),
    Incomplete,
    Malformed,
}

/// The outcome of decoding a fixed count of consecutive replies.
pub enum DecodedItems {
    Complete(Seq<ReplyValue>, int),
    Incomplete,
    Malformed,
}

/// The bytes of `b` from `pos` on.
pub open spec fn suffix(b: Seq<u8>, pos: int) -> Seq<u8> {
    b.subrange(pos, b.len() as int)
}

/// Scanning for a CRLF-terminated line at the start of `s`: the line's
/// bytes and how many bytes the line and terminator took, a signal that
/// the terminator has not arrived yet, or a malformed line (a stray CR or
/// LF inside it).
pub enum LineScan {
    Line(Seq<u8>, int),
    NeedMore,
    BadLine,
}

pub open spec fn scan_line(s: Seq<u8>) -> LineScan
    decreases s.len(),
{
    if s.len() == 0 {
        LineScan::NeedMore
    } else if s[0] == 13 {
        if s.len() < 2 {
            LineScan::NeedMore
        } else if s[1] == 10 {
            LineScan::Line(Seq::empty(), 2)
        } else {
            LineScan::BadLine
        }
    } else if s[0] == 10 {
        LineScan::BadLine
    } else {
        match scan_line(s.subrange(1, s.len() as int)) {
            LineScan::Line(l, used) => LineScan::Line(seq![s[0]] + l, used + 1),
            LineScan::NeedMore => LineScan::NeedMore,
            LineScan::BadLine => LineScan::BadLine,
        }
    }
}

/// A complete line takes its bytes plus the two-byte terminator, all
/// within the scanned bytes, and its content is their prefix.
pub proof fn lemma_scan_line_shape(s: Seq<u8>)
    ensures
        scan_line(s) matches LineScan::Line(l, used) ==> l.len() + 2 == used && used <= s.len()
            && l == s.take(l.len() as int),
    decreases s.len(),
{
    if s.len() == 0 {
    } else if s[0] == 13 {
    } else if s[0] == 10 {
    } else {
        let tail = s.subrange(1, s.len() as int);
        lemma_scan_line_shape(tail);
        if let LineScan::Line(l, used) = scan_line(tail) {
            assert(seq![s[0]] + l =~= s.take(l.len() as int + 1));
        }
    }
}

/// The signed integer a canonical decimal line denotes, if any: no empty
/// text, no superfluous leading zero or sign, no negative zero.
pub open spec fn parse_int_line(l: Seq<u8>) -> Option<int> {
    if l.len() >= 1 && l[0] == 45 {
        let d = l.subrange(1, l.len() as int);
        if is_canonical_digits(d) && digits_val(d) > 0 {
            Option::Some(0 - digits_val(d) as int)
        } else {
            Option::None
        }
    } else if is_canonical_digits(l) {
        Option::Some(digits_val(l) as int)
    } else {
        Option::None
    }
}

/// A length or count line: canonical digits, capped at twenty of them (a
/// larger declared size exceeds any buffer a machine can hold).
pub open spec fn parse_len_line(l: Seq<u8>) -> Option<nat> {
    if is_canonical_digits(l) && l.len() <= 20 {
        Option::Some(digits_val(l))
    } else {
        Option::None
    }
}

/// What the start of `s` decodes to: one complete reply and the bytes its
/// frame took, a signal to buffer more bytes, or a malformed frame.
pub open spec fn dec_value(s: Seq<u8>) -> Decoded
    decreases s.len(), 0int, 0nat via dec_value_decreases
{
    if s.len() == 0 {
        Decoded::Incomplete
    } else {
        let tag = s[0];
        let rest = s.subrange(1, s.len() as int);
        if tag == 43 {  // '+' simple string
            match scan_line(rest) {
                LineScan::Line(l, used) => Decoded::Complete(ReplyValue::SimpleString(l), 1 + used),
                LineScan::NeedMore => Decoded::Incomplete,
                LineScan::BadLine => Decoded::Malformed,
            }
        } else if tag == 45 {  // '-' error
            match scan_line(rest) {
                LineScan::Line(l, used) => Decoded::Complete(ReplyValue::Error(l), 1 + used),
                LineScan::NeedMore => Decoded::Incomplete,
                LineScan::BadLine => Decoded::Malformed,
            }
        } else if tag == 58 {  // ':' integer
            match scan_line(rest) {
                LineScan::Line(l, used) => match parse_int_line(l) {
                    Option::Some(v) => if i64::MIN <= v && v <= i64::MAX {
                        Decoded::Complete(ReplyValue::Integer(v), 1 + used)
                    } else {
                        Decoded::Malformed
                    },
                    Option::None => Decoded::Malformed,
                },
                LineScan::NeedMore => Decoded::Incomplete,
                LineScan::BadLine => Decoded::Malformed,
            }
        } else if tag == 44 {  // ',' double: decimal text kept as sent
            match scan_line(rest) {
                LineScan::Line(l, used) => if l.len() >= 1 {
                    Decoded::Complete(ReplyValue::Double(l), 1 + used)
                } else {
                    Decoded::Malformed
                },
                LineScan::NeedMore => Decoded::Incomplete,
                LineScan::BadLine => Decoded::Malformed,
            }
        } else if tag == 35 {  // '#' boolean
            match scan_line(rest) {
                LineScan::Line(l, used) => if l == seq![116u8] {
                    Decoded::Complete(ReplyValue::Boolean(true), 1 + used)
                } else if l == seq![102u8] {
                    Decoded::Complete(ReplyValue::Boolean(false), 1 + used)
                } else {
                    Decoded::Malformed
                },
                LineScan::NeedMore => Decoded::Incomplete,
                LineScan::BadLine => Decoded::Malformed,
            }
        } else if tag == 95 {  // '_' null
            match scan_line(rest) {
                LineScan::Line(l, used) => if l.len() == 0 {
                    Decoded::Complete(ReplyValue::Null, 1 + used)
                } else {
                    Decoded::Malformed
                },
                LineScan::NeedMore => Decoded::Incomplete,
                LineScan::BadLine => Decoded::Malformed,
            }
        } else if tag == 36 {  // '$' bulk string: length, then raw bytes
            match scan_line(rest) {
                LineScan::Line(l, used) => match parse_len_line(l) {
                    Option::Some(blen) => {
                        let body = rest.subrange(used, rest.len() as int);
                        if body.len() < blen + 2 {
                            Decoded::Incomplete
                        } else if body[blen as int] == 13 && body[blen as int + 1] == 10 {
                            Decoded::Complete(
                                ReplyValue::BulkString(body.take(blen as int)),
                                1 + used + blen + 2,
                            )
                        } else {
                            Decoded::Malformed
                        }
                    },
                    Option::None => Decoded::Malformed,
                },
                LineScan::NeedMore => Decoded::Incomplete,
                LineScan::BadLine => Decoded::Malformed,
            }
        } else if tag == 42 {  // '*' array
            match scan_line(rest) {
                LineScan::Line(l, used) => match parse_len_line(l) {
                    Option::Some(n) => match dec_items(rest.subrange(used, rest.len() as int), n) {
                        DecodedItems::Complete(items, k) => Decoded::Complete(
                            ReplyValue::Array(items),
                            1 + used + k,
                        ),
                        DecodedItems::Incomplete => Decoded::Incomplete,
                        DecodedItems::Malformed => Decoded::Malformed,
                    },
                    Option::None => Decoded::Malformed,
                },
                LineScan::NeedMore => Decoded::Incomplete,
                LineScan::BadLine => Decoded::Malformed,
            }
        } else if tag == 126 {  // '~' set: items kept in received order
            match scan_line(rest) {
                LineScan::Line(l, used) => match parse_len_line(l) {
                    Option::Some(n) => match dec_items(rest.subrange(used, rest.len() as int), n) {
                        DecodedItems::Complete(items, k) => Decoded::Complete(
                            ReplyValue::SetItems(items),
                            1 + used + k,
                        ),
                        DecodedItems::Incomplete => Decoded::Incomplete,
                        DecodedItems::Malformed => Decoded::Malformed,
                    },
                    Option::None => Decoded::Malformed,
                },
                LineScan::NeedMore => Decoded::Incomplete,
                LineScan::BadLine => Decoded::Malformed,
            }
        } else if tag == 37 {  // '%' map: key then value per entry
            match scan_line(rest) {
                LineScan::Line(l, used) => match parse_len_line(l) {
                    Option::Some(n) => match dec_items(
                        rest.subrange(used, rest.len() as int),
                        n * 2,
                    ) {
                        DecodedItems::Complete(items, k) => Decoded::Complete(
                            ReplyValue::MapPairs(
                                Seq::new(n, |i: int| (items[2 * i], items[2 * i + 1])),
                            ),
                            1 + used + k,
                        ),
                        DecodedItems::Incomplete => Decoded::Incomplete,
                        DecodedItems::Malformed => Decoded::Malformed,
                    },
                    Option::None => Decoded::Malformed,
                },
                LineScan::NeedMore => Decoded::Incomplete,
                LineScan::BadLine => Decoded::Malformed,
            }
        } else {
            Decoded::Malformed
        }
    }
}

#[via_fn]
proof fn dec_value_decreases(s: Seq<u8>) {
    if s.len() > 0 {
        lemma_scan_line_shape(s.subrange(1, s.len() as int));
    }
}

/// Scanning from `pos` sees the bytes up to `i` — none of them a CR or LF
/// — prefixed to whatever scanning from `i` sees.
proof fn lemma_scan_line_skip(b: Seq<u8>, pos: int, i: int)
    requires
        0 <= pos <= i <= b.len(),
        forall|j: int| pos <= j < i ==> b[j] != 13 && b[j] != 10,
    ensures
        (match scan_line(suffix(b, i)) {
            LineScan::Line(l, used) => scan_line(suffix(b, pos)) == LineScan::Line(
                b.subrange(pos, i) + l,
                (i - pos) + used,
            ),
            LineScan::NeedMore => scan_line(suffix(b, pos)) == LineScan::NeedMore,
            LineScan::BadLine => scan_line(suffix(b, pos)) == LineScan::BadLine,
        }),
    decreases i - pos,
{
    if pos == i {
        if let LineScan::Line(l, used) = scan_line(suffix(b, i)) {
            assert(b.subrange(pos, i) + l =~= l);
        }
    } else {
        lemma_scan_line_skip(b, pos + 1, i);
        let sp = suffix(b, pos);
        assert(sp[0] == b[pos]);
        assert(sp.subrange(1, sp.len() as int) =~= suffix(b, pos + 1));
        if let LineScan::Line(l, used) = scan_line(suffix(b, i)) {
            assert(seq![b[pos]] + (b.subrange(pos + 1, i) + l) =~= b.subrange(pos, i) + l);
        }
    }
}

/// The position of a line's content end and of the byte after its
/// terminator, or a signal that the line is unfinished or malformed.
enum LineAt {
    Line(usize, usize),
    More,
    Bad,
}

/// Find the CRLF-terminated line starting at `pos`.
fn scan_line_at(buf: &[u8], pos: usize) -> (r: LineAt)
    requires
        pos <= buf@.len(),
    ensures
        (match scan_line(suffix(buf@, pos as int)) {
            LineScan::Line(l, used) => r matches LineAt::Line(end, next) && pos <= end
                && end as int == pos + l.len() && next == pos + used && next <= buf@.len()
                && l == buf@.subrange(pos as int, end as int) && end + 2 == next,
            LineScan::NeedMore => r == LineAt::More,
            LineScan::BadLine => r == LineAt::Bad,
        }),
{
    let n = buf.len();
    let mut i: usize = pos;
    while i < n
        invariant
            pos <= i <= n,
            n == buf@.len(),
            forall|j: int| pos <= j < i ==> buf@[j] != 13 && buf@[j] != 10,
        decreases n - i,
    {
        let c = buf[i];
        if c == 13 {
            proof {
                lemma_scan_line_skip(buf@, pos as int, i as int);
                assert(suffix(buf@, i as int)[0] == buf@[i as int]);
            }
            if i + 1 >= n {
                return LineAt::More;
            }
            proof {
                assert(suffix(buf@, i as int)[1] == buf@[i as int + 1]);
            }
            if buf[i + 1] == 10 {
                proof {
                    assert(buf@.subrange(pos as int, i as int) + Seq::<u8>::empty() =~= buf@
                        .subrange(pos as int, i as int));
                }
                return LineAt::Line(i, i + 2);
            } else {
                return LineAt::Bad;
            }
        } else if c == 10 {
            proof {
                lemma_scan_line_skip(buf@, pos as int, i as int);
                assert(suffix(buf@, i as int)[0] == buf@[i as int]);
            }
            return LineAt::Bad;
        }
        i += 1;
    }
    proof {
        lemma_scan_line_skip(buf@, pos as int, n as int);
        assert(suffix(buf@, n as int).len() == 0);
    }
    LineAt::More
}

/// Copy the bytes of `buf[i..j]`.
fn copy_range(buf: &[u8], i: usize, j: usize) -> (r: Vec<u8>)
    requires
        i <= j <= buf@.len(),
    ensures
        r@ == buf@.subrange(i as int, j as int),
{
    let s = vstd::slice::slice_subrange(buf, i, j);
    vstd::slice::slice_to_vec(s)
}

/// Parse the canonical decimal in `buf[i..j]`, capped at twenty digits.
fn parse_digits_range(buf: &[u8], i: usize, j: usize) -> (r: Option<u128>)
    requires
        i <= j <= buf@.len(),
    ensures
        (match parse_len_line(buf@.subrange(i as int, j as int)) {
            Option::Some(v) => r matches Option::Some(u) && u as nat == v,
            Option::None => r == Option::<u128>::None,
        }),
        r matches Option::Some(u) ==> (u as nat) < pow10(20),
{
    let ghost line = buf@.subrange(i as int, j as int);
    let len = j - i;
    if len == 0 || len > 20 {
        return Option::None;
    }
    if len > 1 && buf[i] == 48 {
        proof {
            assert(line[0] == buf@[i as int]);
        }
        return Option::None;
    }
    let mut acc: u128 = 0;
    let mut k: usize = 0;
    while k < len
        invariant
            i <= j <= buf@.len(),
            k <= len,
            len == j - i,
            1 <= len <= 20,
            line == buf@.subrange(i as int, j as int),
            all_digits(buf@.subrange(i as int, i as int + k as int)),
            acc as nat == digits_val(buf@.subrange(i as int, i as int + k as int)),
        decreases len - k,
    {
        let c = buf[i + k];
        if c < 48 || c > 57 {
            proof {
                assert(line[k as int] == buf@[i as int + k]);
                assert(!is_digit(line[k as int]));
                assert(!all_digits(line));
            }
            return Option::None;
        }
        proof {
            let pre = buf@.subrange(i as int, i as int + k as int);
            lemma_digits_val_upper(pre);
            lemma_pow10_le((k + 1) as nat, 20);
            lemma_pow10_20_fits();
            assert(acc as nat * 10 + 9 < pow10(k as nat) * 10);
            assert(pow10((k + 1) as nat) == 10 * pow10(k as nat));
        }
        acc = acc * 10 + ((c - 48) as u128);
        proof {
            let pre = buf@.subrange(i as int, i as int + k as int);
            let cur = buf@.subrange(i as int, i as int + k as int + 1);
            assert(cur.take(cur.len() - 1) =~= pre);
            assert(cur.last() == buf@[i as int + k]);
            assert(digits_val(cur) == (digits_val(pre) * 10 + (cur.last() - 48)) as nat);
        }
        k += 1;
    }
    proof {
        assert(buf@.subrange(i as int, i as int + len as int) =~= line);
        assert(is_canonical_digits(line));
        lemma_digits_val_upper(line);
        lemma_pow10_le(line.len() as nat, 20);
        lemma_pow10_20_fits();
    }
    Option::Some(acc)
}

/// What decoding `count` consecutive replies from the start of `s` gives.
pub open spec fn dec_items(s: Seq<u8>, count: nat) -> DecodedItems
    decreases s.len(), 1int, count
{
    if count == 0 {
        DecodedItems::Complete(Seq::empty(), 0)
    } else {
        match dec_value(s) {
            Decoded::Complete(v, k) => if 1 <= k <= s.len() {
                match dec_items(s.subrange(k, s.len() as int), (count - 1) as nat) {
                    DecodedItems::Complete(items, k2) => DecodedItems::Complete(
                        seq![v] + items,
                        k + k2,
                    ),
                    DecodedItems::Incomplete => DecodedItems::Incomplete,
                    DecodedItems::Malformed => DecodedItems::Malformed,
                }
            } else {
                DecodedItems::Malformed
            },
            Decoded::Incomplete => DecodedItems::Incomplete,
            Decoded::Malformed => DecodedItems::Malformed,
        }
    }
}

/// A complete item decoding yields exactly `count` items within the bytes.
pub proof fn lemma_dec_items_shape(s: Seq<u8>, count: nat)
    ensures
        dec_items(s, count) matches DecodedItems::Complete(items, k) ==> items.len() == count
            && 0 <= k <= s.len(),
    decreases count,
{
    if count > 0 {
        if let Decoded::Complete(v, k) = dec_value(s) {
            if 1 <= k <= s.len() {
                lemma_dec_items_shape(s.subrange(k, s.len() as int), (count - 1) as nat);
            }
        }
    }
}

/// One decoded value and the position after its frame.
enum ParseR {
    Done(Value, usize),
    More,
    Bad,
}

/// A run of decoded values and the position after their frames.
enum ItemsAt {
    Done(Vec<Value>, usize),
    More,
    Bad,
}

/// Decode one reply whose frame starts at `pos`.
fn parse_value_at(buf: &[u8], pos: usize) -> (r: ParseR)
    requires
        pos <= buf@.len(),
    ensures
        (match dec_value(suffix(buf@, pos as int)) {
            Decoded::Complete(rv, k) => r matches ParseR::Done(v, next) && value_view(v) == rv
                && next == pos + k,
            Decoded::Incomplete => r == ParseR::More,
            Decoded::Malformed => r == ParseR::Bad,
        }),
        (r matches ParseR::Done(v, next) ==> pos < next <= buf@.len()),
    decreases buf@.len() - pos, 0int, 0nat,
{
    let n = buf.len();
    if pos >= n {
        return ParseR::More;
    }
    let ghost s = suffix(buf@, pos as int);
    let ghost rest = s.subrange(1, s.len() as int);
    proof {
        assert(s[0] == buf@[pos as int]);
        assert(rest =~= suffix(buf@, pos as int + 1));
    }
    let tag = buf[pos];
    if !(tag == 43 || tag == 45 || tag == 58 || tag == 44 || tag == 35 || tag == 95 || tag == 36
        || tag == 42 || tag == 126 || tag == 37) {
        return ParseR::Bad;
    }
    let start = pos + 1;
    match scan_line_at(buf, start) {
        LineAt::More => ParseR::More,
        LineAt::Bad => ParseR::Bad,
        LineAt::Line(end, next) => {
            let ghost l = buf@.subrange(start as int, end as int);
            let ghost used = next - start;
            if tag == 43 {
                let content = copy_range(buf, start, end);
                ParseR::Done(Value::SimpleString(content), next)
            } else if tag == 45 {
                let content = copy_range(buf, start, end);
                ParseR::Done(Value::Error(content), next)
            } else if tag == 44 {
                if end > start {
                    let content = copy_range(buf, start, end);
                    ParseR::Done(Value::Double(content), next)
                } else {
                    ParseR::Bad
                }
            } else if tag == 35 {
                if end == start + 1 && buf[start] == 116 {
                    proof {
                        assert(l =~= seq![116u8]);
                    }
                    ParseR::Done(Value::Boolean(true), next)
                } else if end == start + 1 && buf[start] == 102 {
                    proof {
                        assert(l =~= seq![102u8]);
                    }
                    ParseR::Done(Value::Boolean(false), next)
                } else {
                    proof {
                        if l.len() == 1 {
                            assert(l[0] == buf@[start as int]);
                        }
                        assert(l != seq![116u8]);
                        assert(l != seq![102u8]);
                    }
                    ParseR::Bad
                }
            } else if tag == 95 {
                if end == start {
                    ParseR::Done(Value::Null, next)
                } else {
                    ParseR::Bad
                }
            } else if tag == 58 {
                let neg = end > start && buf[start] == 45;
                let dstart = if neg { start + 1 } else { start };
                let ghost d = buf@.subrange(dstart as int, end as int);
                proof {
                    if neg {
                        assert(l[0] == buf@[start as int]);
                        assert(d =~= l.subrange(1, l.len() as int));
                    }
                }
                if end - dstart > 19 {
                    proof {
                        if is_canonical_digits(d) {
                            lemma_digits_val_lower(d);
                            lemma_pow10_le(19, (d.len() - 1) as nat);
                            lemma_pow10_20_fits();
                        }
                    }
                    ParseR::Bad
                } else {
                    match parse_digits_range(buf, dstart, end) {
                        Option::None => ParseR::Bad,
                        Option::Some(u) => {
                            if neg {
                                if u == 0 {
                                    ParseR::Bad
                                } else if u > 9223372036854775808u128 {
                                    ParseR::Bad
                                } else if u == 9223372036854775808u128 {
                                    ParseR::Done(Value::Integer(i64::MIN), next)
                                } else {
                                    ParseR::Done(Value::Integer(-(u as i64)), next)
                                }
                            } else {
                                if u > 9223372036854775807u128 {
                                    ParseR::Bad
                                } else {
                                    ParseR::Done(Value::Integer(u as i64), next)
                                }
                            }
                        },
                    }
                }
            } else if tag == 36 {
                match parse_digits_range(buf, start, end) {
                    Option::None => ParseR::Bad,
                    Option::Some(blen) => {
                        let ghost body = suffix(buf@, next as int);
                        proof {
                            lemma_pow10_20_fits();
                            assert(rest.subrange(used, rest.len() as int) =~= body);
                        }
                        let avail = (n - next) as u128;
                        if avail < blen + 2 {
                            ParseR::More
                        } else {
                            let bl = blen as usize;
                            proof {
                                assert(body[blen as int] == buf@[next + bl]);
                                assert(body[blen as int + 1] == buf@[next + bl + 1]);
                            }
                            if buf[next + bl] == 13 && buf[next + bl + 1] == 10 {
                                let content = copy_range(buf, next, next + bl);
                                proof {
                                    assert(body.take(blen as int) =~= buf@.subrange(
                                        next as int,
                                        next as int + bl as int,
                                    ));
                                }
                                ParseR::Done(Value::BulkString(content), next + bl + 2)
                            } else {
                                ParseR::Bad
                            }
                        }
                    },
                }
            } else {
                // '*' array, '~' set, '%' map
                match parse_digits_range(buf, start, end) {
                    Option::None => ParseR::Bad,
                    Option::Some(cnt) => {
                        proof {
                            lemma_pow10_20_fits();
                            assert(rest.subrange(used, rest.len() as int) =~= suffix(
                                buf@,
                                next as int,
                            ));
                        }
                        let count = if tag == 37 { cnt * 2 } else { cnt };
                        match parse_items_at(buf, next, count) {
                            ItemsAt::More => ParseR::More,
                            ItemsAt::Bad => ParseR::Bad,
                            ItemsAt::Done(items, next2) => {
                                if tag == 42 {
                                    ParseR::Done(Value::Array(items), next2)
                                } else if tag == 126 {
                                    ParseR::Done(Value::SetItems(items), next2)
                                } else {
                                    let ghost orig = items@;
                                    let ghost ivs = values_view(orig);
                                    proof {
                                        lemma_dec_items_shape(
                                            suffix(buf@, next as int),
                                            count as nat,
                                        );
                                        lemma_values_view_index(orig);
                                    }
                                    let ncnt = items.len() / 2;
                                    let mut rest_items = items;
                                    let mut pairs: Vec<(Value, Value)> = Vec::new();
                                    let mut i: usize = 0;
                                    while i < ncnt
                                        invariant
                                            2 * ncnt == orig.len(),
                                            i <= ncnt,
                                            rest_items@ == orig.subrange(
                                                2 * i as int,
                                                orig.len() as int,
                                            ),
                                            pairs@.len() == i,
                                            forall|j: int| 0 <= j < i ==> #[trigger] pairs@[j]
                                                == (orig[2 * j], orig[2 * j + 1]),
                                        decreases ncnt - i,
                                    {
                                        let a = rest_items.remove(0);
                                        let b = rest_items.remove(0);
                                        pairs.push((a, b));
                                        proof {
                                            assert(rest_items@ =~= orig.subrange(
                                                2 * (i + 1) as int,
                                                orig.len() as int,
                                            ));
                                        }
                                        i += 1;
                                    }
                                    proof {
                                        lemma_pairs_view_index(pairs@);
                                        assert(orig.len() == count as nat);
                                        assert(count as nat == 2 * (cnt as nat));
                                        assert(ncnt as nat == cnt as nat);
                                        let target = Seq::new(
                                            cnt as nat,
                                            |j: int| (ivs[2 * j], ivs[2 * j + 1]),
                                        );
                                        assert forall|j: int| 0 <= j < cnt as nat implies
                                            pairs_view(pairs@)[j] == target[j] by {
                                            assert(pairs@[j] == (orig[2 * j], orig[2 * j + 1]));
                                            assert(pairs_view(pairs@)[j] == (
                                                value_view(pairs@[j].0),
                                                value_view(pairs@[j].1),
                                            ));
                                            assert(values_view(orig)[2 * j] == value_view(
                                                orig[2 * j],
                                            ));
                                            assert(values_view(orig)[2 * j + 1] == value_view(
                                                orig[2 * j + 1],
                                            ));
                                        }
                                        assert(pairs_view(pairs@) =~= target);
                                    }
                                    ParseR::Done(Value::MapPairs(pairs), next2)
                                }
                            },
                        }
                    },
                }
            }
        },
    }
}

/// Decode `count` consecutive replies starting at `pos`.
fn parse_items_at(buf: &[u8], pos: usize, count: u128) -> (r: ItemsAt)
    requires
        pos <= buf@.len(),
    ensures
        (match dec_items(suffix(buf@, pos as int), count as nat) {
            DecodedItems::Complete(ivs, k) => r matches ItemsAt::Done(items, next)
                && values_view(items@) == ivs && next == pos + k,
            DecodedItems::Incomplete => r == ItemsAt::More,
            DecodedItems::Malformed => r == ItemsAt::Bad,
        }),
        (r matches ItemsAt::Done(items, next) ==> pos <= next <= buf@.len()),
    decreases buf@.len() - pos, 1int, count,
{
    if count == 0 {
        let items: Vec<Value> = Vec::new();
        proof {
            assert(values_view(items@) =~= Seq::<ReplyValue>::empty());
        }
        return ItemsAt::Done(items, pos);
    }
    match parse_value_at(buf, pos) {
        ParseR::More => ItemsAt::More,
        ParseR::Bad => ItemsAt::Bad,
        ParseR::Done(v, next) => {
            proof {
                let s = suffix(buf@, pos as int);
                assert(s.subrange(next - pos, s.len() as int) =~= suffix(buf@, next as int));
            }
            match parse_items_at(buf, next, count - 1) {
                ItemsAt::More => ItemsAt::More,
                ItemsAt::Bad => ItemsAt::Bad,
                ItemsAt::Done(items, next2) => {
                    let ghost tail = items@;
                    let mut items = items;
                    items.insert(0, v);
                    proof {
                        assert(items@.subrange(1, items@.len() as int) =~= tail);
                        assert(items@[0] == v);
                        assert(values_view(items@) =~= seq![value_view(v)] + values_view(tail));
                    }
                    ItemsAt::Done(items, next2)
                },
            }
        },
    }
}

/// Scanning a digit line finds exactly the digits, whatever follows the
/// terminator.
proof fn lemma_scan_line_of_digits(d: Seq<u8>, tail: Seq<u8>)
    requires
        all_digits(d),
    ensures
        scan_line(d + crlf() + tail) == LineScan::Line(d, d.len() as int + 2),
    decreases d.len(),
{
    let s = d + crlf() + tail;
    if d.len() == 0 {
        assert(s[0] == 13);
        assert(s[1] == 10);
        assert(s.len() >= 2);
        assert(scan_line(s) == LineScan::Line(Seq::<u8>::empty(), 2));
        assert(d =~= Seq::<u8>::empty());
    } else {
        let dt = d.subrange(1, d.len() as int);
        lemma_scan_line_of_digits(dt, tail);
        assert(s[0] == d[0]);
        assert(is_digit(d[0]));
        assert(s.subrange(1, s.len() as int) =~= dt + crlf() + tail);
        assert(seq![d[0]] + dt =~= d);
    }
}

/// A bulk-string encoding decodes to exactly its bytes, whatever follows.
proof fn lemma_dec_bulk(b: Seq<u8>, tail: Seq<u8>)
    requires
        b.len() <= usize::MAX as nat,
    ensures
        dec_value(enc_bulk(b) + tail) == Decoded::Complete(
            ReplyValue::BulkString(b),
            enc_bulk(b).len() as int,
        ),
{
    let s = enc_bulk(b) + tail;
    let dd = dec_digits(b.len());
    lemma_dec_digits_len_20(b.len());
    assert(s[0] == 36);
    let rest = s.subrange(1, s.len() as int);
    assert(rest =~= dd + crlf() + (b + crlf() + tail));
    lemma_scan_line_of_digits(dd, b + crlf() + tail);
    assert(parse_len_line(dd) == Option::Some(b.len() as nat));
    let used = dd.len() as int + 2;
    let body = rest.subrange(used, rest.len() as int);
    assert(body =~= b + crlf() + tail);
    assert(body.len() >= b.len() + 2);
    assert(body[b.len() as int] == 13);
    assert(body[b.len() as int + 1] == 10);
    assert(body.take(b.len() as int) =~= b);
    assert(enc_bulk(b).len() == 1 + used + b.len() + 2);
}

/// Consecutive bulk-string encodings decode to their bytes, in order,
/// whatever follows.
proof fn lemma_dec_items_bulks(items: Seq<Seq<u8>>, tail: Seq<u8>)
    requires
        forall|i: int| 0 <= i < items.len() ==> (#[trigger] items[i]).len() <= usize::MAX as nat,
    ensures
        dec_items(enc_bulks(items) + tail, items.len()) == DecodedItems::Complete(
            items.map_values(|b: Seq<u8>| ReplyValue::BulkString(b)),
            enc_bulks(items).len() as int,
        ),
    decreases items.len(),
{
    let s = enc_bulks(items) + tail;
    if items.len() == 0 {
        assert(items.map_values(|b: Seq<u8>| ReplyValue::BulkString(b)) =~= Seq::<
            ReplyValue,
        >::empty());
        assert(enc_bulks(items).len() == 0);
    } else {
        let hd = items[0];
        let tl = items.subrange(1, items.len() as int);
        assert(enc_bulks(items) == enc_bulk(hd) + enc_bulks(tl));
        assert(s =~= enc_bulk(hd) + (enc_bulks(tl) + tail));
        lemma_dec_bulk(hd, enc_bulks(tl) + tail);
        let k = enc_bulk(hd).len() as int;
        assert(enc_bulk(hd).len() >= 1);
        assert(k <= s.len());
        assert(s.subrange(k, s.len() as int) =~= enc_bulks(tl) + tail);
        lemma_dec_items_bulks(tl, tail);
        assert(seq![ReplyValue::BulkString(hd)] + tl.map_values(
            |b: Seq<u8>| ReplyValue::BulkString(b),
        ) =~= items.map_values(|b: Seq<u8>| ReplyValue::BulkString(b)));
    }
}

/// Encoding a command and decoding the bytes back as one reply frame
/// yields exactly the array of the verb's and every argument's original
/// bytes — empty arguments and embedded zero bytes included — and
/// consumes exactly the frame.
pub proof fn lemma_encode_decode_round_trip(name: Seq<u8>, args: Seq<Seq<u8>>)
    requires
        name.len() <= usize::MAX as nat,
        args.len() + 1 <= usize::MAX as nat,
        forall|i: int| 0 <= i < args.len() ==> (#[trigger] args[i]).len() <= usize::MAX as nat,
    ensures
        dec_value(enc_command(name, args)) == Decoded::Complete(
            ReplyValue::Array(
                seq![ReplyValue::BulkString(name)] + args.map_values(
                    |b: Seq<u8>| ReplyValue::BulkString(b),
                ),
            ),
            enc_command(name, args).len() as int,
        ),
{
    let s = enc_command(name, args);
    let cnt = (args.len() + 1) as nat;
    let dd = dec_digits(cnt);
    lemma_dec_digits_len_20(cnt);
    assert(s[0] == 42);
    let rest = s.subrange(1, s.len() as int);
    let all = seq![name] + args;
    lemma_enc_bulks_concat(seq![name], args);
    assert(seq![name][0] == name);
    assert(seq![name].drop_first() =~= Seq::<Seq<u8>>::empty());
    assert(enc_bulks(seq![name]) =~= enc_bulk(name) + enc_bulks(Seq::<Seq<u8>>::empty()));
    assert(enc_bulks(Seq::<Seq<u8>>::empty()) =~= Seq::<u8>::empty());
    assert(enc_bulks(all) =~= enc_bulk(name) + enc_bulks(args));
    assert(rest =~= dd + crlf() + enc_bulks(all));
    lemma_scan_line_of_digits(dd, enc_bulks(all));
    assert(parse_len_line(dd) == Option::Some(cnt));
    let used = dd.len() as int + 2;
    assert(rest.subrange(used, rest.len() as int) =~= enc_bulks(all) + Seq::<u8>::empty());
    assert(forall|i: int| 0 <= i < all.len() ==> (#[trigger] all[i]).len() <= usize::MAX as nat);
    lemma_dec_items_bulks(all, Seq::<u8>::empty());
    assert(all.len() == cnt);
    assert(all.map_values(|b: Seq<u8>| ReplyValue::BulkString(b)) =~= seq![
        ReplyValue::BulkString(name),
    ] + args.map_values(|b: Seq<u8>| ReplyValue::BulkString(b)));
    assert(s.len() == 1 + used + enc_bulks(all).len());
}

/// The outcome of decoding a buffer's prefix.
pub enum DecodeResult {
    Complete(Value, usize),
    Incomplete,
    Malformed,
}

/// Decode the first complete reply frame of `buf`: the reply and how many
/// bytes its frame took; or a request to buffer more bytes; or a
/// malformed-frame report.
pub fn decode_value(buf: &[u8]) -> (r: DecodeResult)
    ensures
        (match dec_value(buf@) {
            Decoded::Complete(rv, k) => r matches DecodeResult::Complete(v, used)
                && value_view(v) == rv && used == k,
            Decoded::Incomplete => r == DecodeResult::Incomplete,
            Decoded::Malformed => r == DecodeResult::Malformed,
        }),
{
    proof {
        assert(suffix(buf@, 0) =~= buf@);
    }
    match parse_value_at(buf, 0) {
        ParseR::Done(v, next) => DecodeResult::Complete(v, next),
        ParseR::More => DecodeResult::Incomplete,
        ParseR::Bad => DecodeResult::Malformed,
    }
}

} // verus!
