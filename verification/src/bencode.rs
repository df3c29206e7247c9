//! Bencoding, the format of metafiles.
//!
//! A value is an integer (`i42e`), a byte string (`4:spam`), a list
//! (`l...e`) or a dictionary (`d...e`) of byte-string keys and values.
//! Numbers are written in decimal without leading zeros, and there is no
//! `-0`, so that every value has one encoding and every encoding one value.
//! The entries of a dictionary are kept in the order in which they stand.

use vstd::prelude::*;
use crate::codec::{copy_range, push_all, same_bytes};

verus! {

/// A bencoded value.
pub ghost enum Value {
    /// An integer.
    Int(int),
    /// A byte string.
    Bytes(Seq<u8>),
    /// A list of values.
    List(Seq<Value>),
    /// A dictionary: keys and values in the order in which they stand.
    Dict(Seq<(Seq<u8>, Value)>),
}

/// How deep lists and dictionaries may be nested in one another.
pub const MAX_DEPTH: u32 = 64;

/// Whether a byte is one of the digits `0` to `9`.
pub open spec fn is_digit(c: u8) -> bool {
    0x30 <= c <= 0x39
}

/// The decimal numeral of `n`, without leading zeros.
pub open spec fn digits(n: nat) -> Seq<u8>
    decreases n,
{
    if n < 10 {
        seq![(0x30 + n) as u8]
    } else {
        digits(n / 10).push((0x30 + n % 10) as u8)
    }
}

/// The encoding of the first `n` of some values, one after the other.
pub open spec fn encode_items(items: Seq<Value>, n: int) -> Seq<u8>
    decreases items, n,
{
    if n <= 0 || n > items.len() {
        Seq::empty()
    } else {
        encode_items(items, n - 1) + encode(items[n - 1])
    }
}

/// The encoding of the first `n` of some entries: each key as a byte string,
/// followed by its value.
pub open spec fn encode_entries(entries: Seq<(Seq<u8>, Value)>, n: int) -> Seq<u8>
    decreases entries, n,
{
    if n <= 0 || n > entries.len() {
        Seq::empty()
    } else {
        encode_entries(entries, n - 1) + encode_bytes(entries[n - 1].0) + encode(entries[n - 1].1)
    }
}

/// The encoding of a byte string: its length, a colon and the bytes.
pub open spec fn encode_bytes(s: Seq<u8>) -> Seq<u8> {
    digits(s.len()) + seq![0x3au8] + s
}

/// The encoding of an integer: `i`, the numeral with its sign, `e`.
pub open spec fn encode_int(i: int) -> Seq<u8> {
    if i < 0 {
        seq![0x69u8, 0x2du8] + digits((-i) as nat) + seq![0x65u8]
    } else {
        seq![0x69u8] + digits(i as nat) + seq![0x65u8]
    }
}

/// The encoding of a value.
pub open spec fn encode(v: Value) -> Seq<u8>
    decreases v, 0int,
{
    match v {
        Value::Int(i) => encode_int(i),
        Value::Bytes(s) => encode_bytes(s),
        Value::List(items) => seq![0x6cu8] + encode_items(items, items.len() as int) + seq![
            0x65u8,
        ],
        Value::Dict(entries) => seq![0x64u8] + encode_entries(entries, entries.len() as int)
            + seq![0x65u8],
    }
}

/// Where the run of digits that starts at `at` ends.
pub open spec fn digits_end(b: Seq<u8>, at: int) -> int
    decreases b.len() - at,
{
    if 0 <= at < b.len() && is_digit(b[at]) {
        digits_end(b, at + 1)
    } else {
        at
    }
}

/// The number that the digits from `from` up to `to` write.
pub open spec fn digits_value(b: Seq<u8>, from: int, to: int) -> nat
    decreases to - from,
{
    if to <= from {
        0
    } else {
        digits_value(b, from, to - 1) * 10 + (b[to - 1] - 0x30) as nat
    }
}

/// A number and where what follows it starts.
pub ghost struct NumberAt {
    pub value: nat,
    pub end: int,
}

/// The numeral at `at`: a run of at least one digit, without a leading zero
/// unless it is the single digit zero.
pub open spec fn number_at(b: Seq<u8>, at: int) -> Option<NumberAt> {
    let end = digits_end(b, at);
    if 0 <= at < end && (b[at] != 0x30 || end == at + 1) {
        Some(NumberAt { value: digits_value(b, at, end), end })
    } else {
        None
    }
}

/// A value and where what follows it starts.
pub ghost struct ValueAt {
    pub value: Value,
    pub end: int,
}

/// Values and where what follows them starts.
pub ghost struct ItemsAt {
    pub items: Seq<Value>,
    pub end: int,
}

/// Entries and where what follows them starts.
pub ghost struct EntriesAt {
    pub entries: Seq<(Seq<u8>, Value)>,
    pub end: int,
}

/// The integer at `at`, which fits 64 bits.
pub open spec fn int_at(b: Seq<u8>, at: int) -> Option<ValueAt> {
    if 0 <= at && at + 1 < b.len() && b[at] == 0x69 {
        let negative = b[at + 1] == 0x2d;
        let start = if negative {
            at + 2
        } else {
            at + 1
        };
        match number_at(b, start) {
            Some(n) => if n.end < b.len() && b[n.end] == 0x65 && (negative ==> 1 <= n.value
                <= 0x8000_0000_0000_0000) && (!negative ==> n.value <= 0x7fff_ffff_ffff_ffff) {
                Some(
                    ValueAt {
                        value: Value::Int(
                            if negative {
                                -(n.value as int)
                            } else {
                                n.value as int
                            },
                        ),
                        end: n.end + 1,
                    },
                )
            } else {
                None
            },
            None => None,
        }
    } else {
        None
    }
}

/// The byte string at `at`: its contents and where what follows it starts.
pub open spec fn bytes_at(b: Seq<u8>, at: int) -> Option<(Seq<u8>, int)> {
    match number_at(b, at) {
        Some(n) => if n.end < b.len() && b[n.end] == 0x3a && n.end + 1 + n.value <= b.len() {
            Some((b.subrange(n.end + 1, n.end + 1 + n.value), n.end + 1 + n.value))
        } else {
            None
        },
        None => None,
    }
}

/// The value at `at`, with lists and dictionaries nested at most `depth` deep.
pub open spec fn value_at(b: Seq<u8>, at: int, depth: nat) -> Option<ValueAt>
    decreases depth, b.len() - at, 1int,
{
    if at < 0 || at >= b.len() {
        None
    } else if b[at] == 0x69 {
        int_at(b, at)
    } else if is_digit(b[at]) {
        match bytes_at(b, at) {
            Some((s, end)) => Some(ValueAt { value: Value::Bytes(s), end }),
            None => None,
        }
    } else if b[at] == 0x6c && depth > 0 {
        match items_at(b, at + 1, (depth - 1) as nat) {
            Some(r) => Some(ValueAt { value: Value::List(r.items), end: r.end }),
            None => None,
        }
    } else if b[at] == 0x64 && depth > 0 {
        match entries_at(b, at + 1, (depth - 1) as nat) {
            Some(r) => Some(ValueAt { value: Value::Dict(r.entries), end: r.end }),
            None => None,
        }
    } else {
        None
    }
}

/// The values from `at` up to the `e` that ends their list.
pub open spec fn items_at(b: Seq<u8>, at: int, depth: nat) -> Option<ItemsAt>
    decreases depth, b.len() - at, 2int,
{
    if at < 0 || at >= b.len() {
        None
    } else if b[at] == 0x65 {
        Some(ItemsAt { items: Seq::empty(), end: at + 1 })
    } else {
        match value_at(b, at, depth) {
            Some(first) => if first.end <= at || first.end > b.len() {
                None
            } else {
                match items_at(b, first.end, depth) {
                    Some(rest) => Some(
                        ItemsAt { items: seq![first.value] + rest.items, end: rest.end },
                    ),
                    None => None,
                }
            },
            None => None,
        }
    }
}

/// The entries from `at` up to the `e` that ends their dictionary.
pub open spec fn entries_at(b: Seq<u8>, at: int, depth: nat) -> Option<EntriesAt>
    decreases depth, b.len() - at, 2int,
{
    if at < 0 || at >= b.len() {
        None
    } else if b[at] == 0x65 {
        Some(EntriesAt { entries: Seq::empty(), end: at + 1 })
    } else {
        match bytes_at(b, at) {
            Some((key, key_end)) => if key_end <= at || key_end > b.len() {
                None
            } else {
                match value_at(b, key_end, depth) {
                    Some(first) => if first.end <= key_end || first.end > b.len() {
                        None
                    } else {
                        match entries_at(b, first.end, depth) {
                            Some(rest) => Some(
                                EntriesAt {
                                    entries: seq![(key, first.value)] + rest.entries,
                                    end: rest.end,
                                },
                            ),
                            None => None,
                        }
                    },
                    None => None,
                }
            },
            None => None,
        }
    }
}

/// The value that a buffer encodes: the buffer holds one value and nothing
/// after it.
pub open spec fn decode(b: Seq<u8>) -> Option<Value> {
    match value_at(b, 0, MAX_DEPTH as nat) {
        Some(r) => if r.end == b.len() {
            Some(r.value)
        } else {
            None
        },
        None => None,
    }
}

/// The value of the first entry with the given key, from entry `from` on.
pub open spec fn lookup_from(entries: Seq<(Seq<u8>, Value)>, key: Seq<u8>, from: int) -> Option<
    Value,
>
    decreases entries.len() - from,
{
    if from < 0 || from >= entries.len() {
        None
    } else if entries[from].0 == key {
        Some(entries[from].1)
    } else {
        lookup_from(entries, key, from + 1)
    }
}

/// The value that a dictionary has under a key: that of the first entry with
/// the key. A value that is no dictionary has none.
pub open spec fn lookup(v: Value, key: Seq<u8>) -> Option<Value> {
    match v {
        Value::Dict(entries) => lookup_from(entries, key, 0),
        _ => None,
    }
}

/// A bencoded value in memory.
#[derive(Debug, PartialEq, Eq)]
pub enum Node {
    /// An integer.
    Int(i64),
    /// A byte string.
    Bytes(Vec<u8>),
    /// A list of values.
    List(Vec<Node>),
    /// A dictionary: keys and values in the order in which they stand.
    Dict(Vec<(Vec<u8>, Node)>),
}

impl View for Node {
    type V = Value;

    open spec fn view(&self) -> Value
        decreases self, 0int,
    {
        match self {
            Node::Int(i) => Value::Int(*i as int),
            Node::Bytes(s) => Value::Bytes(s@),
            Node::List(items) => Value::List(item_views(items@)),
            Node::Dict(entries) => Value::Dict(entry_views(entries@)),
        }
    }
}

/// What a list of nodes holds.
pub open spec fn item_views(items: Seq<Node>) -> Seq<Value>
    decreases items, 1int,
{
    Seq::new(
        items.len(),
        |i: int|
            if 0 <= i < items.len() {
                items[i]@
            } else {
                Value::Int(0)
            },
    )
}

/// What a list of entries holds.
pub open spec fn entry_views(entries: Seq<(Vec<u8>, Node)>) -> Seq<(Seq<u8>, Value)>
    decreases entries, 1int,
{
    Seq::new(
        entries.len(),
        |i: int|
            if 0 <= i < entries.len() {
                (entries[i].0@, entries[i].1@)
            } else {
                (Seq::empty(), Value::Int(0))
            },
    )
}

/// A number that was read and the index after its last digit.
pub struct Number {
    pub value: u64,
    pub end: usize,
}

/// A value that was read and the index after its last byte.
pub struct Parsed {
    pub node: Node,
    pub end: usize,
}

/// Where the bytes from `at` up to `i` are digits, the run that starts at
/// `at` ends where the run that starts at `i` ends.
pub proof fn lemma_digits_end_skips(b: Seq<u8>, at: int, i: int)
    requires
        0 <= at <= i <= b.len(),
        forall|k: int| at <= k < i ==> is_digit(#[trigger] b[k]),
    ensures
        digits_end(b, at) == digits_end(b, i),
    decreases i - at,
{
    if at < i {
        lemma_digits_end_skips(b, at + 1, i);
    }
}

/// A run of digits ends within the buffer, holds digits only and is followed
/// by none.
pub proof fn lemma_digits_end_bounds(b: Seq<u8>, at: int)
    requires
        0 <= at <= b.len(),
    ensures
        at <= digits_end(b, at) <= b.len(),
        forall|k: int| at <= k < digits_end(b, at) ==> is_digit(#[trigger] b[k]),
        digits_end(b, at) < b.len() ==> !is_digit(b[digits_end(b, at)]),
    decreases b.len() - at,
{
    if at < b.len() && is_digit(b[at]) {
        lemma_digits_end_bounds(b, at + 1);
    }
}

/// Reads the numeral at `at`, if it writes a number up to `limit`.
pub fn read_number(buf: &[u8], at: usize, limit: u64) -> (r: Option<Number>)
    ensures
        match number_at(buf@, at as int) {
            Some(n) => if n.value <= limit {
                r is Some && r->0.value == n.value && r->0.end == n.end
            } else {
                r is None
            },
            None => r is None,
        },
        r is Some ==> at < r->0.end <= buf@.len(),
{
    if at >= buf.len() || buf[at] < 0x30 || buf[at] > 0x39 {
        return None;
    }
    proof {
        lemma_digits_end_bounds(buf@, at as int);
    }
    let mut value: u64 = 0;
    let mut i: usize = at;
    let mut fits: bool = true;
    while i < buf.len() && buf[i] >= 0x30 && buf[i] <= 0x39
        invariant
            at <= i <= buf@.len(),
            forall|k: int| at <= k < i ==> is_digit(#[trigger] buf@[k]),
            fits ==> value == digits_value(buf@, at as int, i as int) && value <= limit,
            !fits ==> digits_value(buf@, at as int, i as int) > limit,
        decreases buf@.len() - i,
    {
        let d: u64 = (buf[i] - 0x30) as u64;
        if fits {
            if d > limit || value > (limit - d) / 10 {
                fits = false;
            } else {
                value = value * 10 + d;
            }
        } else {
            proof {
                assert(digits_value(buf@, at as int, i + 1) >= digits_value(buf@, at as int, i as int));
            }
        }
        i = i + 1;
    }
    proof {
        lemma_digits_end_skips(buf@, at as int, i as int);
        assert(digits_end(buf@, i as int) == i);
    }
    if !fits {
        return None;
    }
    if buf[at] == 0x30 && i != at + 1 {
        return None;
    }
    Some(Number { value, end: i })
}


/// A byte string that was read and the index after its last byte.
pub struct BytesRead {
    pub bytes: Vec<u8>,
    pub end: usize,
}

/// Reads the integer at `at`.
pub fn read_int(buf: &[u8], at: usize) -> (r: Option<Parsed>)
    ensures
        match int_at(buf@, at as int) {
            Some(v) => r is Some && r->0.node@ == v.value && r->0.end == v.end,
            None => r is None,
        },
        r is Some ==> at < r->0.end <= buf@.len(),
{
    if at >= buf.len() || buf.len() - at < 2 || buf[at] != 0x69 {
        return None;
    }
    let negative = buf[at + 1] == 0x2d;
    let start: usize = if negative {
        at + 2
    } else {
        at + 1
    };
    let n = match read_number(buf, start, 0x8000_0000_0000_0000) {
        Some(n) => n,
        None => { return None; },
    };
    if n.end >= buf.len() || buf[n.end] != 0x65 {
        return None;
    }
    let value: i64 = if negative {
        if n.value == 0 {
            return None;
        }
        if n.value == 0x8000_0000_0000_0000 {
            i64::MIN
        } else {
            -(n.value as i64)
        }
    } else {
        if n.value > 0x7fff_ffff_ffff_ffff {
            return None;
        }
        n.value as i64
    };
    Some(Parsed { node: Node::Int(value), end: n.end + 1 })
}

/// Reads the byte string at `at`.
pub fn read_bytes(buf: &[u8], at: usize) -> (r: Option<BytesRead>)
    ensures
        match bytes_at(buf@, at as int) {
            Some((s, end)) => r is Some && r->0.bytes@ == s && r->0.end == end,
            None => r is None,
        },
        r is Some ==> at < r->0.end <= buf@.len(),
{
    let n = match read_number(buf, at, buf.len() as u64) {
        Some(n) => n,
        None => { return None; },
    };
    if n.end >= buf.len() || buf[n.end] != 0x3a {
        return None;
    }
    let start: usize = n.end + 1;
    if n.value > (buf.len() - start) as u64 {
        return None;
    }
    let end: usize = start + n.value as usize;
    match copy_range(buf, start, end) {
        Some(bytes) => Some(BytesRead { bytes, end }),
        None => None,
    }
}

/// What is read once `done` has been read and `rest` follows.
pub open spec fn items_after(done: Seq<Value>, rest: Option<ItemsAt>) -> Option<ItemsAt> {
    match rest {
        Some(r) => Some(ItemsAt { items: done + r.items, end: r.end }),
        None => None,
    }
}

/// What is read once `done` has been read and `rest` follows.
pub open spec fn entries_after(done: Seq<(Seq<u8>, Value)>, rest: Option<EntriesAt>) -> Option<
    EntriesAt,
> {
    match rest {
        Some(r) => Some(EntriesAt { entries: done + r.entries, end: r.end }),
        None => None,
    }
}

/// Reads the value at `at`, with lists and dictionaries nested at most
/// `depth` deep.
pub fn parse_value(buf: &[u8], at: usize, depth: u32) -> (r: Option<Parsed>)
    ensures
        match value_at(buf@, at as int, depth as nat) {
            Some(v) => r is Some && r->0.node@ == v.value && r->0.end == v.end,
            None => r is None,
        },
        r is Some ==> at < r->0.end <= buf@.len(),
    decreases depth,
{
    if at >= buf.len() {
        return None;
    }
    let c = buf[at];
    if c == 0x69 {
        read_int(buf, at)
    } else if c >= 0x30 && c <= 0x39 {
        match read_bytes(buf, at) {
            Some(s) => Some(Parsed { node: Node::Bytes(s.bytes), end: s.end }),
            None => None,
        }
    } else if c == 0x6c && depth > 0 {
        let mut items: Vec<Node> = Vec::new();
        let mut i: usize = at + 1;
        assert(items_after(item_views(items@), items_at(buf@, i as int, (depth - 1) as nat))
            == items_at(buf@, at + 1, (depth - 1) as nat)) by {
            let r = items_at(buf@, i as int, (depth - 1) as nat);
            if r is Some {
                assert(item_views(items@) + r->0.items =~= r->0.items);
            }
        }
        loop
            invariant
                at < i <= buf@.len(),
                depth > 0,
                buf@[at as int] == 0x6c,
                items_after(item_views(items@), items_at(buf@, i as int, (depth - 1) as nat))
                    == items_at(buf@, at + 1, (depth - 1) as nat),
            decreases buf@.len() - i,
        {
            if i >= buf.len() {
                return None;
            }
            if buf[i] == 0x65 {
                assert(item_views(items@) + Seq::<Value>::empty() =~= item_views(items@));
                return Some(Parsed { node: Node::List(items), end: i + 1 });
            }
            match parse_value(buf, i, depth - 1) {
                None => { return None; },
                Some(p) => {
                    proof {
                        let done = item_views(items@);
                        let rest = items_at(buf@, p.end as int, (depth - 1) as nat);
                        assert(item_views(items@.push(p.node)) =~= done.push(p.node@));
                        if rest is Some {
                            assert(done.push(p.node@) + rest->0.items =~= done + (seq![p.node@]
                                + rest->0.items));
                        }
                    }
                    items.push(p.node);
                    i = p.end;
                },
            }
        }
    } else if c == 0x64 && depth > 0 {
        let mut entries: Vec<(Vec<u8>, Node)> = Vec::new();
        let mut i: usize = at + 1;
        assert(entries_after(
            entry_views(entries@),
            entries_at(buf@, i as int, (depth - 1) as nat),
        ) == entries_at(buf@, at + 1, (depth - 1) as nat)) by {
            let r = entries_at(buf@, i as int, (depth - 1) as nat);
            if r is Some {
                assert(entry_views(entries@) + r->0.entries =~= r->0.entries);
            }
        }
        loop
            invariant
                at < i <= buf@.len(),
                depth > 0,
                buf@[at as int] == 0x64,
                entries_after(
                    entry_views(entries@),
                    entries_at(buf@, i as int, (depth - 1) as nat),
                ) == entries_at(buf@, at + 1, (depth - 1) as nat),
            decreases buf@.len() - i,
        {
            if i >= buf.len() {
                return None;
            }
            if buf[i] == 0x65 {
                assert(entry_views(entries@) + Seq::<(Seq<u8>, Value)>::empty() =~= entry_views(
                    entries@,
                ));
                return Some(Parsed { node: Node::Dict(entries), end: i + 1 });
            }
            let key = match read_bytes(buf, i) {
                Some(k) => k,
                None => { return None; },
            };
            match parse_value(buf, key.end, depth - 1) {
                None => { return None; },
                Some(p) => {
                    proof {
                        let done = entry_views(entries@);
                        let rest = entries_at(buf@, p.end as int, (depth - 1) as nat);
                        let entry = (key.bytes@, p.node@);
                        assert(entry_views(entries@.push((key.bytes, p.node))) =~= done.push(entry));
                        if rest is Some {
                            assert(done.push(entry) + rest->0.entries =~= done + (seq![entry]
                                + rest->0.entries));
                        }
                    }
                    entries.push((key.bytes, p.node));
                    i = p.end;
                },
            }
        }
    } else {
        None
    }
}

/// Reads the value that a buffer encodes. The buffer must hold one value
/// and nothing after it.
pub fn parse(buf: &[u8]) -> (r: Option<Node>)
    ensures
        match decode(buf@) {
            Some(v) => r is Some && r->0@ == v,
            None => r is None,
        },
{
    match parse_value(buf, 0, MAX_DEPTH) {
        Some(p) => if p.end == buf.len() {
            Some(p.node)
        } else {
            None
        },
        None => None,
    }
}

/// Appends the decimal numeral of `n`.
pub fn push_digits(out: &mut Vec<u8>, n: u64)
    ensures
        final(out)@ == old(out)@ + digits(n as nat),
{
    let mut lower: Vec<u8> = Vec::new();
    let mut rest: u64 = n;
    while rest >= 10
        invariant
            digits(n as nat) == digits(rest as nat) + lower@.reverse(),
        decreases rest,
    {
        let c: u8 = 0x30 + (rest % 10) as u8;
        proof {
            let before = lower@;
            assert(digits(rest as nat) == digits((rest / 10) as nat).push(c));
            assert(before.push(c).reverse() =~= seq![c] + before.reverse());
            assert(digits((rest / 10) as nat).push(c) + before.reverse() =~= digits(
                (rest / 10) as nat,
            ) + (seq![c] + before.reverse()));
        }
        lower.push(c);
        rest = rest / 10;
    }
    let first: u8 = 0x30 + rest as u8;
    out.push(first);
    let ghost lead = out@;
    assert(digits(rest as nat) == seq![first]);
    let mut i: usize = lower.len();
    while i > 0
        invariant
            i <= lower@.len(),
            out@ == lead + lower@.reverse().subrange(0, lower@.len() - i),
        decreases i,
    {
        i = i - 1;
        out.push(lower[i]);
        proof {
            let r = lower@.reverse();
            let k = lower@.len() - i;
            assert(r[k - 1] == lower@[i as int]);
            assert(r.subrange(0, k as int) =~= r.subrange(0, k - 1).push(r[k - 1]));
            assert(out@ =~= lead + r.subrange(0, k as int));
        }
    }
    proof {
        let r = lower@.reverse();
        assert(r.subrange(0, r.len() as int) =~= r);
        assert(out@ =~= old(out)@ + (seq![first] + r));
    }
}

/// Appends the encoding of a byte string.
pub fn push_encoded_bytes(out: &mut Vec<u8>, s: &[u8])
    ensures
        final(out)@ == old(out)@ + encode_bytes(s@),
{
    push_digits(out, s.len() as u64);
    out.push(0x3a);
    push_all(out, s);
    assert(out@ =~= old(out)@ + encode_bytes(s@));
}

impl Node {
    /// Appends the encoding of this value.
    pub fn encode_into(&self, out: &mut Vec<u8>)
        ensures
            final(out)@ == old(out)@ + encode(self@),
        decreases self,
    {
        match self {
            Node::Int(i) => {
                out.push(0x69);
                if *i < 0 {
                    out.push(0x2d);
                    let magnitude: u64 = if *i == i64::MIN {
                        0x8000_0000_0000_0000
                    } else {
                        (-*i) as u64
                    };
                    push_digits(out, magnitude);
                } else {
                    push_digits(out, *i as u64);
                }
                out.push(0x65);
                assert(out@ =~= old(out)@ + encode_int(*i as int));
            },
            Node::Bytes(s) => {
                push_encoded_bytes(out, s.as_slice());
            },
            Node::List(items) => {
                out.push(0x6c);
                let ghost views = item_views(items@);
                let mut k: usize = 0;
                while k < items.len()
                    invariant
                        k <= items@.len(),
                        self == Node::List(*items),
                        views == item_views(items@),
                        out@ == old(out)@ + seq![0x6cu8] + encode_items(views, k as int),
                    decreases items@.len() - k,
                {
                    assert(decreases_to!(self => self->List_0));
                    assert(decreases_to!(self->List_0 => self->List_0@));
                    assert(decreases_to!(self->List_0@ => self->List_0@[k as int]));
                    let ghost before = out@;
                    items[k].encode_into(out);
                    assert(views[k as int] == items@[k as int]@);
                    assert(out@ =~= old(out)@ + seq![0x6cu8] + encode_items(views, k + 1));
                    k = k + 1;
                }
                out.push(0x65);
                assert(out@ =~= old(out)@ + encode(self@));
            },
            Node::Dict(entries) => {
                out.push(0x64);
                let ghost views = entry_views(entries@);
                let mut k: usize = 0;
                while k < entries.len()
                    invariant
                        k <= entries@.len(),
                        self == Node::Dict(*entries),
                        views == entry_views(entries@),
                        out@ == old(out)@ + seq![0x64u8] + encode_entries(views, k as int),
                    decreases entries@.len() - k,
                {
                    assert(decreases_to!(self => self->Dict_0));
                    assert(decreases_to!(self->Dict_0 => self->Dict_0@));
                    assert(decreases_to!(self->Dict_0@ => self->Dict_0@[k as int]));
                    assert(decreases_to!(self->Dict_0@[k as int] => self->Dict_0@[k as int].1));
                    push_encoded_bytes(out, entries[k].0.as_slice());
                    entries[k].1.encode_into(out);
                    assert(views[k as int] == (entries@[k as int].0@, entries@[k as int].1@));
                    assert(out@ =~= old(out)@ + seq![0x64u8] + encode_entries(views, k + 1));
                    k = k + 1;
                }
                out.push(0x65);
                assert(out@ =~= old(out)@ + encode(self@));
            },
        }
    }

    /// The encoding of this value.
    pub fn encode(&self) -> (out: Vec<u8>)
        ensures
            out@ == encode(self@),
    {
        let mut out: Vec<u8> = Vec::new();
        self.encode_into(&mut out);
        assert(out@ =~= encode(self@));
        out
    }

    /// The value that this dictionary has under `key`: that of the first
    /// entry with the key. A value that is no dictionary has none.
    pub fn get(&self, key: &[u8]) -> (r: Option<&Node>)
        ensures
            match lookup(self@, key@) {
                Some(v) => r is Some && r->0@ == v,
                None => r is None,
            },
    {
        match self {
            Node::Dict(entries) => {
                let mut k: usize = 0;
                while k < entries.len()
                    invariant
                        k <= entries@.len(),
                        self == Node::Dict(*entries),
                        lookup(self@, key@) == lookup_from(entry_views(entries@), key@, k as int),
                    decreases entries@.len() - k,
                {
                    assert(entry_views(entries@)[k as int] == (
                        entries@[k as int].0@,
                        entries@[k as int].1@,
                    ));
                    if same_bytes(entries[k].0.as_slice(), key) {
                        return Some(&entries[k].1);
                    }
                    k = k + 1;
                }
                None
            },
            _ => None,
        }
    }

    /// The integer that this value is, if it is one.
    pub fn as_int(&self) -> (r: Option<i64>)
        ensures
            r == match self@ {
                Value::Int(i) => Some(i as i64),
                _ => None,
            },
            r is Some ==> self@ == Value::Int(r->0 as int),
    {
        match self {
            Node::Int(i) => Some(*i),
            _ => None,
        }
    }

    /// The byte string that this value is, if it is one.
    pub fn as_bytes(&self) -> (r: Option<&Vec<u8>>)
        ensures
            match self@ {
                Value::Bytes(s) => r is Some && r->0@ == s,
                _ => r is None,
            },
    {
        match self {
            Node::Bytes(s) => Some(s),
            _ => None,
        }
    }

    /// The items of the list that this value is, if it is one.
    pub fn as_list(&self) -> (r: Option<&Vec<Node>>)
        ensures
            match self@ {
                Value::List(items) => r is Some && item_views(r->0@) == items,
                _ => r is None,
            },
    {
        match self {
            Node::List(items) => Some(items),
            _ => None,
        }
    }
}

} // verus!
