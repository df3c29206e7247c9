//! What holds of bencoding: a buffer that is read as a value is the encoding
//! of that value, and the encoding of a value is read as that value.

use vstd::prelude::*;
use crate::bencode::{
    bytes_at, decode, digits, digits_end, digits_value, encode, encode_bytes, encode_entries,
    encode_int, encode_items, entries_at, int_at, is_digit, items_at, lemma_digits_end_bounds,
    lemma_digits_end_skips, number_at, value_at, EntriesAt, ItemsAt, NumberAt, Value, ValueAt,
    MAX_DEPTH,
};

verus! {

/// The number that some digits write depends on the digits alone.
proof fn lemma_digits_value_same(a: Seq<u8>, from_a: int, b: Seq<u8>, from_b: int, k: int)
    requires
        0 <= k,
        0 <= from_a,
        from_a + k <= a.len(),
        0 <= from_b,
        from_b + k <= b.len(),
        a.subrange(from_a, from_a + k) == b.subrange(from_b, from_b + k),
    ensures
        digits_value(a, from_a, from_a + k) == digits_value(b, from_b, from_b + k),
    decreases k,
{
    if k > 0 {
        let pa = a.subrange(from_a, from_a + k);
        let pb = b.subrange(from_b, from_b + k);
        assert(a.subrange(from_a, from_a + k - 1) =~= pa.subrange(0, k - 1));
        assert(b.subrange(from_b, from_b + k - 1) =~= pb.subrange(0, k - 1));
        lemma_digits_value_same(a, from_a, b, from_b, k - 1);
        assert(a[from_a + k - 1] == pa[k - 1]);
        assert(b[from_b + k - 1] == pb[k - 1]);
    }
}

/// The numeral of a number: at least one digit, digits only, a leading zero
/// for zero alone, and it writes the number.
pub proof fn lemma_digits_shape(n: nat)
    ensures
        digits(n).len() >= 1,
        forall|i: int| 0 <= i < digits(n).len() ==> is_digit(#[trigger] digits(n)[i]),
        digits(n)[0] == 0x30 <==> n == 0,
        n < 10 ==> digits(n).len() == 1,
        digits_value(digits(n), 0, digits(n).len() as int) == n,
    decreases n,
{
    if n < 10 {
        let s = digits(n);
        assert(digits_value(s, 0, 0) == 0);
        assert(digits_value(s, 0, 1) == digits_value(s, 0, 0) * 10 + (s[0] - 0x30) as nat);
    } else {
        lemma_digits_shape(n / 10);
        let head = digits(n / 10);
        let s = digits(n);
        let k = head.len() as int;
        assert(s == head.push((0x30 + n % 10) as u8));
        assert forall|i: int| 0 <= i < s.len() implies is_digit(#[trigger] s[i]) by {
            if i < k {
                assert(s[i] == head[i]);
            }
        }
        assert(s[0] == head[0]);
        assert(s.subrange(0, k) =~= head.subrange(0, k));
        lemma_digits_value_same(s, 0, head, 0, k);
        assert(digits_value(s, 0, k + 1) == digits_value(s, 0, k) * 10 + (s[k] - 0x30) as nat);
    }
}

/// A run of digits without a leading zero is the numeral of the number it
/// writes.
proof fn lemma_canonical_digits(b: Seq<u8>, at: int, end: int)
    requires
        0 <= at < end <= b.len(),
        forall|k: int| at <= k < end ==> is_digit(#[trigger] b[k]),
        b[at] != 0x30 || end == at + 1,
    ensures
        b.subrange(at, end) == digits(digits_value(b, at, end)),
        b[at] != 0x30 ==> digits_value(b, at, end) >= 1,
        end > at + 1 ==> digits_value(b, at, end) >= 10,
    decreases end - at,
{
    if end == at + 1 {
        assert(digits_value(b, at, at) == 0);
        assert(digits_value(b, at, end) == (b[at] - 0x30) as nat);
        assert(is_digit(b[at]));
        assert(b.subrange(at, end) =~= digits(digits_value(b, at, end)));
    } else {
        lemma_canonical_digits(b, at, end - 1);
        let pv = digits_value(b, at, end - 1);
        let v = digits_value(b, at, end);
        assert(is_digit(b[end - 1]));
        let d = (b[end - 1] - 0x30) as nat;
        assert(v == pv * 10 + d);
        assert(v / 10 == pv && v % 10 == d);
        assert(digits(v) == digits(pv).push((0x30 + d) as u8));
        assert(b.subrange(at, end) =~= b.subrange(at, end - 1).push(b[end - 1]));
    }
}

/// The numeral that is read at `at` stands there.
pub proof fn lemma_number_sound(b: Seq<u8>, at: int)
    requires
        number_at(b, at) is Some,
    ensures
        at < number_at(b, at)->0.end <= b.len(),
        b.subrange(at, number_at(b, at)->0.end) == digits(number_at(b, at)->0.value),
        number_at(b, at)->0.end < b.len() ==> !is_digit(b[number_at(b, at)->0.end]),
{
    lemma_digits_end_bounds(b, at);
    lemma_canonical_digits(b, at, digits_end(b, at));
}

/// The numeral of `n` that stands at `at`, with no digit after it, is read as `n`.
pub proof fn lemma_number_complete(b: Seq<u8>, at: int, n: nat)
    requires
        0 <= at,
        at + digits(n).len() <= b.len(),
        b.subrange(at, at + digits(n).len()) == digits(n),
        at + digits(n).len() < b.len() ==> !is_digit(b[at + digits(n).len()]),
    ensures
        number_at(b, at) == Some(NumberAt { value: n, end: at + digits(n).len() }),
{
    lemma_digits_shape(n);
    let s = digits(n);
    let k = s.len() as int;
    let part = b.subrange(at, at + k);
    assert forall|i: int| at <= i < at + k implies is_digit(#[trigger] b[i]) by {
        assert(b[i] == part[i - at]);
        assert(is_digit(s[i - at]));
    }
    lemma_digits_end_skips(b, at, at + k);
    assert(digits_end(b, at + k) == at + k);
    assert(b[at] == part[0]);
    assert(s.subrange(0, k) =~= s);
    lemma_digits_value_same(b, at, s, 0, k);
}

/// The encoding of a value and more values after it is the encoding of the
/// value followed by the encoding of the others.
pub proof fn lemma_encode_items_prepend(first: Value, rest: Seq<Value>, n: int)
    requires
        0 <= n <= rest.len(),
    ensures
        encode_items(seq![first] + rest, n + 1) == encode(first) + encode_items(rest, n),
    decreases n,
{
    let all = seq![first] + rest;
    if n == 0 {
        assert(encode_items(all, 0) =~= Seq::<u8>::empty());
        assert(all[0] == first);
        assert(encode_items(all, 1) =~= encode(first));
        assert(encode(first) + encode_items(rest, 0) =~= encode(first));
    } else {
        lemma_encode_items_prepend(first, rest, n - 1);
        assert(all[n] == rest[n - 1]);
        assert(encode_items(all, n + 1) == encode_items(all, n) + encode(all[n]));
        assert(encode_items(rest, n) == encode_items(rest, n - 1) + encode(rest[n - 1]));
        assert(encode_items(all, n + 1) =~= encode(first) + encode_items(rest, n));
    }
}

/// The encoding of an entry and more entries after it is the encoding of the
/// entry followed by the encoding of the others.
pub proof fn lemma_encode_entries_prepend(
    first: (Seq<u8>, Value),
    rest: Seq<(Seq<u8>, Value)>,
    n: int,
)
    requires
        0 <= n <= rest.len(),
    ensures
        encode_entries(seq![first] + rest, n + 1) == encode_bytes(first.0) + encode(first.1)
            + encode_entries(rest, n),
    decreases n,
{
    let all = seq![first] + rest;
    if n == 0 {
        assert(encode_entries(all, 0) =~= Seq::<u8>::empty());
        assert(all[0] == first);
        assert(encode_entries(all, 1) =~= encode_bytes(first.0) + encode(first.1));
        assert(encode_bytes(first.0) + encode(first.1) + encode_entries(rest, 0) =~= encode_bytes(
            first.0,
        ) + encode(first.1));
    } else {
        lemma_encode_entries_prepend(first, rest, n - 1);
        assert(all[n] == rest[n - 1]);
        assert(encode_entries(all, n + 1) == encode_entries(all, n) + encode_bytes(all[n].0)
            + encode(all[n].1));
        assert(encode_entries(rest, n) == encode_entries(rest, n - 1) + encode_bytes(rest[n - 1].0)
            + encode(rest[n - 1].1));
        assert(encode_entries(all, n + 1) =~= encode_bytes(first.0) + encode(first.1)
            + encode_entries(rest, n));
    }
}

/// The byte string that is read at `at` stands there in its encoding.
pub proof fn lemma_bytes_sound(b: Seq<u8>, at: int)
    requires
        bytes_at(b, at) is Some,
    ensures
        ({
            let (s, end) = bytes_at(b, at)->0;
            at < end <= b.len() && b.subrange(at, end) == encode_bytes(s) && is_digit(b[at])
        }),
{
    lemma_number_sound(b, at);
    let n = number_at(b, at)->0;
    let (s, end) = bytes_at(b, at)->0;
    lemma_digits_end_bounds(b, at);
    assert(b.subrange(at, end) =~= b.subrange(at, n.end) + seq![0x3au8] + s);
}

/// The integer that is read at `at` stands there in its encoding.
pub proof fn lemma_int_sound(b: Seq<u8>, at: int)
    requires
        int_at(b, at) is Some,
    ensures
        at < int_at(b, at)->0.end <= b.len(),
        int_at(b, at)->0.value is Int,
        b.subrange(at, int_at(b, at)->0.end) == encode_int(int_at(b, at)->0.value->Int_0),
{
    let negative = b[at + 1] == 0x2d;
    let start = if negative {
        at + 2
    } else {
        at + 1
    };
    lemma_number_sound(b, start);
    let n = number_at(b, start)->0;
    let end = n.end + 1;
    if negative {
        assert(b.subrange(at, end) =~= seq![0x69u8, 0x2du8] + b.subrange(start, n.end) + seq![
            0x65u8,
        ]);
    } else {
        assert(b.subrange(at, end) =~= seq![0x69u8] + b.subrange(start, n.end) + seq![0x65u8]);
    }
}

/// The value that is read at `at` stands there in its encoding.
pub proof fn lemma_value_sound(b: Seq<u8>, at: int, depth: nat)
    requires
        value_at(b, at, depth) is Some,
    ensures
        at < value_at(b, at, depth)->0.end <= b.len(),
        b.subrange(at, value_at(b, at, depth)->0.end) == encode(value_at(b, at, depth)->0.value),
    decreases depth, b.len() - at, 1int,
{
    let r = value_at(b, at, depth)->0;
    if b[at] == 0x69 {
        lemma_int_sound(b, at);
    } else if is_digit(b[at]) {
        lemma_bytes_sound(b, at);
    } else if b[at] == 0x6c {
        lemma_items_sound(b, at + 1, (depth - 1) as nat);
        let items = items_at(b, at + 1, (depth - 1) as nat)->0;
        assert(b.subrange(at, r.end) =~= seq![0x6cu8] + b.subrange(at + 1, r.end));
        assert(seq![0x6cu8] + (encode_items(items.items, items.items.len() as int) + seq![0x65u8])
            =~= seq![0x6cu8] + encode_items(items.items, items.items.len() as int) + seq![0x65u8]);
    } else {
        lemma_entries_sound(b, at + 1, (depth - 1) as nat);
        let entries = entries_at(b, at + 1, (depth - 1) as nat)->0;
        assert(b.subrange(at, r.end) =~= seq![0x64u8] + b.subrange(at + 1, r.end));
        assert(seq![0x64u8] + (encode_entries(entries.entries, entries.entries.len() as int)
            + seq![0x65u8]) =~= seq![0x64u8] + encode_entries(
            entries.entries,
            entries.entries.len() as int,
        ) + seq![0x65u8]);
    }
}

/// The values that are read from `at` stand there in their encoding, up to
/// the `e` that ends them.
pub proof fn lemma_items_sound(b: Seq<u8>, at: int, depth: nat)
    requires
        items_at(b, at, depth) is Some,
    ensures
        at < items_at(b, at, depth)->0.end <= b.len(),
        b.subrange(at, items_at(b, at, depth)->0.end) == encode_items(
            items_at(b, at, depth)->0.items,
            items_at(b, at, depth)->0.items.len() as int,
        ) + seq![0x65u8],
    decreases depth, b.len() - at, 2int,
{
    let r = items_at(b, at, depth)->0;
    if b[at] == 0x65 {
        assert(b.subrange(at, at + 1) =~= encode_items(r.items, 0) + seq![0x65u8]);
    } else {
        lemma_value_sound(b, at, depth);
        let first = value_at(b, at, depth)->0;
        lemma_items_sound(b, first.end, depth);
        let rest = items_at(b, first.end, depth)->0;
        lemma_encode_items_prepend(first.value, rest.items, rest.items.len() as int);
        assert(b.subrange(at, r.end) =~= b.subrange(at, first.end) + b.subrange(
            first.end,
            rest.end,
        ));
        assert(encode(first.value) + (encode_items(rest.items, rest.items.len() as int) + seq![
            0x65u8,
        ]) =~= encode(first.value) + encode_items(rest.items, rest.items.len() as int) + seq![
            0x65u8,
        ]);
    }
}

/// The entries that are read from `at` stand there in their encoding, up to
/// the `e` that ends them.
pub proof fn lemma_entries_sound(b: Seq<u8>, at: int, depth: nat)
    requires
        entries_at(b, at, depth) is Some,
    ensures
        at < entries_at(b, at, depth)->0.end <= b.len(),
        b.subrange(at, entries_at(b, at, depth)->0.end) == encode_entries(
            entries_at(b, at, depth)->0.entries,
            entries_at(b, at, depth)->0.entries.len() as int,
        ) + seq![0x65u8],
    decreases depth, b.len() - at, 2int,
{
    let r = entries_at(b, at, depth)->0;
    if b[at] == 0x65 {
        assert(b.subrange(at, at + 1) =~= encode_entries(r.entries, 0) + seq![0x65u8]);
    } else {
        lemma_bytes_sound(b, at);
        let (name, name_end) = bytes_at(b, at)->0;
        lemma_value_sound(b, name_end, depth);
        let first = value_at(b, name_end, depth)->0;
        lemma_entries_sound(b, first.end, depth);
        let rest = entries_at(b, first.end, depth)->0;
        lemma_encode_entries_prepend(
            (name, first.value),
            rest.entries,
            rest.entries.len() as int,
        );
        assert(b.subrange(at, r.end) =~= b.subrange(at, name_end) + b.subrange(
            name_end,
            first.end,
        ) + b.subrange(first.end, rest.end));
        assert(encode_bytes(name) + encode(first.value) + (encode_entries(
            rest.entries,
            rest.entries.len() as int,
        ) + seq![0x65u8]) =~= encode_bytes(name) + encode(first.value) + encode_entries(
            rest.entries,
            rest.entries.len() as int,
        ) + seq![0x65u8]);
    }
}

/// A buffer that is read as a value is the encoding of that value.
pub proof fn lemma_decode_sound(b: Seq<u8>)
    requires
        decode(b) is Some,
    ensures
        encode(decode(b)->0) == b,
{
    lemma_value_sound(b, 0, MAX_DEPTH as nat);
    assert(b.subrange(0, b.len() as int) =~= b);
}


/// A value that can be read back: its integers fit 64 bits, and its lists and
/// dictionaries are nested at most `depth` deep.
pub open spec fn fits(v: Value, depth: nat) -> bool
    decreases v,
{
    match v {
        Value::Int(i) => i64::MIN <= i <= i64::MAX,
        Value::Bytes(_) => true,
        Value::List(items) => depth > 0 && forall|k: int|
            0 <= k < items.len() ==> fits(#[trigger] items[k], (depth - 1) as nat),
        Value::Dict(entries) => depth > 0 && forall|k: int|
            0 <= k < entries.len() ==> fits((#[trigger] entries[k]).1, (depth - 1) as nat),
    }
}

/// An encoding has at least two bytes, and its first byte tells the kind of
/// the value: it is `i`, a digit, `l` or `d`.
pub proof fn lemma_encode_starts(v: Value)
    ensures
        encode(v).len() >= 2,
        v is Int <==> encode(v)[0] == 0x69,
        v is Bytes <==> is_digit(encode(v)[0]),
        v is List <==> encode(v)[0] == 0x6c,
        v is Dict <==> encode(v)[0] == 0x64,
{
    match v {
        Value::Int(i) => {
            if i < 0 {
                lemma_digits_shape((-i) as nat);
            } else {
                lemma_digits_shape(i as nat);
            }
        },
        Value::Bytes(s) => {
            lemma_digits_shape(s.len());
            assert(encode(v)[0] == digits(s.len())[0]);
        },
        Value::List(items) => {},
        Value::Dict(entries) => {},
    }
}

/// The encoding of a byte string that stands at `at` is read as the string.
pub proof fn lemma_bytes_complete(b: Seq<u8>, at: int, s: Seq<u8>)
    requires
        0 <= at,
        at + encode_bytes(s).len() <= b.len(),
        b.subrange(at, at + encode_bytes(s).len()) == encode_bytes(s),
    ensures
        bytes_at(b, at) == Some((s, at + encode_bytes(s).len())),
{
    lemma_digits_shape(s.len());
    let head = digits(s.len());
    let k = head.len() as int;
    let enc = encode_bytes(s);
    let part = b.subrange(at, at + enc.len());
    assert(b.subrange(at, at + k) =~= head) by {
        assert forall|i: int| 0 <= i < k implies b[at + i] == head[i] by {
            assert(b[at + i] == part[i]);
            assert(enc[i] == head[i]);
        }
    }
    assert(b[at + k] == part[k]);
    assert(enc[k] == 0x3a);
    lemma_number_complete(b, at, s.len());
    assert(b.subrange(at + k + 1, at + k + 1 + s.len()) =~= s) by {
        assert forall|i: int| 0 <= i < s.len() implies b[at + k + 1 + i] == s[i] by {
            assert(b[at + k + 1 + i] == part[k + 1 + i]);
            assert(enc[k + 1 + i] == s[i]);
        }
    }
}

/// The encoding of an integer that stands at `at` is read as the integer.
pub proof fn lemma_int_complete(b: Seq<u8>, at: int, i: int)
    requires
        i64::MIN <= i <= i64::MAX,
        0 <= at,
        at + encode_int(i).len() <= b.len(),
        b.subrange(at, at + encode_int(i).len()) == encode_int(i),
    ensures
        int_at(b, at) == Some(ValueAt { value: Value::Int(i), end: at + encode_int(i).len() }),
{
    let enc = encode_int(i);
    let part = b.subrange(at, at + enc.len());
    let n: nat = if i < 0 {
        (-i) as nat
    } else {
        i as nat
    };
    lemma_digits_shape(n);
    let head = digits(n);
    let k = head.len() as int;
    let start = if i < 0 {
        at + 2
    } else {
        at + 1
    };
    assert(b[at] == part[0]);
    assert(b[at + 1] == part[1]);
    if i >= 0 {
        assert(enc[1] == head[0]);
        assert(is_digit(head[0]));
    }
    assert(b.subrange(start, start + k) =~= head) by {
        assert forall|j: int| 0 <= j < k implies b[start + j] == head[j] by {
            assert(b[start + j] == part[start - at + j]);
            assert(enc[start - at + j] == head[j]);
        }
    }
    assert(b[start + k] == part[start - at + k]);
    assert(enc[start - at + k] == 0x65);
    lemma_number_complete(b, start, n);
}

/// The encoding of a value that stands at `at` is read as the value.
pub proof fn lemma_value_complete(b: Seq<u8>, at: int, v: Value, depth: nat)
    requires
        fits(v, depth),
        0 <= at,
        at + encode(v).len() <= b.len(),
        b.subrange(at, at + encode(v).len()) == encode(v),
    ensures
        value_at(b, at, depth) == Some(ValueAt { value: v, end: at + encode(v).len() }),
    decreases v, 0int,
{
    lemma_encode_starts(v);
    let enc = encode(v);
    let part = b.subrange(at, at + enc.len());
    assert(b[at] == part[0]);
    match v {
        Value::Int(i) => {
            lemma_int_complete(b, at, i);
        },
        Value::Bytes(s) => {
            lemma_bytes_complete(b, at, s);
        },
        Value::List(items) => {
            let inner = encode_items(items, items.len() as int) + seq![0x65u8];
            assert(b.subrange(at + 1, at + 1 + inner.len()) =~= inner) by {
                assert forall|i: int| 0 <= i < inner.len() implies b[at + 1 + i] == inner[i] by {
                    assert(b[at + 1 + i] == part[1 + i]);
                    assert(enc[1 + i] == inner[i]);
                }
            }
            lemma_items_complete(b, at + 1, items, (depth - 1) as nat);
        },
        Value::Dict(entries) => {
            let inner = encode_entries(entries, entries.len() as int) + seq![0x65u8];
            assert(b.subrange(at + 1, at + 1 + inner.len()) =~= inner) by {
                assert forall|i: int| 0 <= i < inner.len() implies b[at + 1 + i] == inner[i] by {
                    assert(b[at + 1 + i] == part[1 + i]);
                    assert(enc[1 + i] == inner[i]);
                }
            }
            lemma_entries_complete(b, at + 1, entries, (depth - 1) as nat);
        },
    }
}

/// The encodings of values that stand at `at`, one after the other and
/// with an `e` after the last, are read as the values.
pub proof fn lemma_items_complete(b: Seq<u8>, at: int, items: Seq<Value>, depth: nat)
    requires
        forall|k: int| 0 <= k < items.len() ==> fits(#[trigger] items[k], depth),
        0 <= at,
        at + encode_items(items, items.len() as int).len() + 1 <= b.len(),
        b.subrange(at, at + encode_items(items, items.len() as int).len() + 1) == encode_items(
            items,
            items.len() as int,
        ) + seq![0x65u8],
    ensures
        items_at(b, at, depth) == Some(
            ItemsAt { items, end: at + encode_items(items, items.len() as int).len() + 1 },
        ),
    decreases items, 1int,
{
    let n = items.len() as int;
    let enc = encode_items(items, n) + seq![0x65u8];
    let part = b.subrange(at, at + enc.len());
    assert(b[at] == part[0]);
    if n == 0 {
        assert(encode_items(items, 0) =~= Seq::<u8>::empty());
        assert(items =~= Seq::<Value>::empty());
    } else {
        let first = items[0];
        let rest = items.drop_first();
        assert(items =~= seq![first] + rest);
        lemma_encode_items_prepend(first, rest, n - 1);
        lemma_encode_starts(first);
        let head = encode(first);
        let tail = encode_items(rest, n - 1) + seq![0x65u8];
        assert(enc =~= head + tail);
        assert(enc[0] == head[0]);
        assert(b.subrange(at, at + head.len()) =~= head) by {
            assert forall|i: int| 0 <= i < head.len() implies b[at + i] == head[i] by {
                assert(b[at + i] == part[i]);
            }
        }
        assert(b.subrange(at + head.len(), at + head.len() + tail.len()) =~= tail) by {
            assert forall|i: int| 0 <= i < tail.len() implies b[at + head.len() + i]
                == tail[i] by {
                assert(b[at + head.len() + i] == part[head.len() + i]);
            }
        }
        assert(fits(items[0], depth));
        lemma_value_complete(b, at, first, depth);
        assert forall|k: int| 0 <= k < rest.len() implies fits(#[trigger] rest[k], depth) by {
            assert(rest[k] == items[k + 1]);
        }
        assert(rest.len() == n - 1);
        lemma_items_complete(b, at + head.len(), rest, depth);
    }
}

/// The encodings of entries that stand at `at`, one after the other and
/// with an `e` after the last, are read as the entries.
pub proof fn lemma_entries_complete(
    b: Seq<u8>,
    at: int,
    entries: Seq<(Seq<u8>, Value)>,
    depth: nat,
)
    requires
        forall|k: int| 0 <= k < entries.len() ==> fits((#[trigger] entries[k]).1, depth),
        0 <= at,
        at + encode_entries(entries, entries.len() as int).len() + 1 <= b.len(),
        b.subrange(at, at + encode_entries(entries, entries.len() as int).len() + 1)
            == encode_entries(entries, entries.len() as int) + seq![0x65u8],
    ensures
        entries_at(b, at, depth) == Some(
            EntriesAt {
                entries,
                end: at + encode_entries(entries, entries.len() as int).len() + 1,
            },
        ),
    decreases entries, 1int,
{
    let n = entries.len() as int;
    let enc = encode_entries(entries, n) + seq![0x65u8];
    let part = b.subrange(at, at + enc.len());
    assert(b[at] == part[0]);
    if n == 0 {
        assert(encode_entries(entries, 0) =~= Seq::<u8>::empty());
        assert(entries =~= Seq::<(Seq<u8>, Value)>::empty());
    } else {
        let first = entries[0];
        let rest = entries.drop_first();
        assert(entries =~= seq![first] + rest);
        lemma_encode_entries_prepend(first, rest, n - 1);
        lemma_encode_starts(first.1);
        lemma_digits_shape(first.0.len());
        let name = encode_bytes(first.0);
        let head = encode(first.1);
        let tail = encode_entries(rest, n - 1) + seq![0x65u8];
        assert(enc =~= name + head + tail);
        assert(enc[0] == name[0]);
        assert(name[0] == digits(first.0.len())[0]);
        assert(b.subrange(at, at + name.len()) =~= name) by {
            assert forall|i: int| 0 <= i < name.len() implies b[at + i] == name[i] by {
                assert(b[at + i] == part[i]);
            }
        }
        assert(b.subrange(at + name.len(), at + name.len() + head.len()) =~= head) by {
            assert forall|i: int| 0 <= i < head.len() implies b[at + name.len() + i]
                == head[i] by {
                assert(b[at + name.len() + i] == part[name.len() + i]);
            }
        }
        assert(b.subrange(
            at + name.len() + head.len(),
            at + name.len() + head.len() + tail.len(),
        ) =~= tail) by {
            assert forall|i: int| 0 <= i < tail.len() implies b[at + name.len() + head.len() + i]
                == tail[i] by {
                assert(b[at + name.len() + head.len() + i] == part[name.len() + head.len() + i]);
            }
        }
        lemma_bytes_complete(b, at, first.0);
        assert(fits(entries[0].1, depth));
        lemma_value_complete(b, at + name.len(), first.1, depth);
        assert forall|k: int| 0 <= k < rest.len() implies fits((#[trigger] rest[k]).1, depth) by {
            assert(rest[k] == entries[k + 1]);
        }
        assert(rest.len() == n - 1);
        lemma_entries_complete(b, at + name.len() + head.len(), rest, depth);
    }
}

/// The encoding of a value is read as the value.
pub proof fn lemma_decode_complete(v: Value)
    requires
        fits(v, MAX_DEPTH as nat),
    ensures
        decode(encode(v)) == Some(v),
{
    let b = encode(v);
    assert(b.subrange(0, b.len() as int) =~= b);
    lemma_value_complete(b, 0, v, MAX_DEPTH as nat);
}

} // verus!
