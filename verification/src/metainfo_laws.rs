//! What holds of reading a metafile: the info-hash is taken over the `info`
//! dictionary as it stands in the metafile; keys that are not read do not
//! change what the metafile describes, but a key more in `info` changes the
//! bytes that are hashed.

use vstd::prelude::*;
use crate::bencode::{
    decode, encode, encode_bytes, encode_entries, lookup, lookup_from, Value, MAX_DEPTH,
};
use crate::bencode_laws::{fits, lemma_decode_complete, lemma_decode_sound, lemma_encode_starts};
use crate::hash::sha1;
use crate::metainfo::{key, metafile};

verus! {

/// The encoding of the first entries does not depend on those after them.
proof fn lemma_encode_entries_prefix(
    a: Seq<(Seq<u8>, Value)>,
    b: Seq<(Seq<u8>, Value)>,
    n: int,
)
    requires
        0 <= n <= a.len(),
        n <= b.len(),
        a.subrange(0, n) == b.subrange(0, n),
    ensures
        encode_entries(a, n) == encode_entries(b, n),
    decreases n,
{
    if n > 0 {
        assert(a.subrange(0, n - 1) =~= a.subrange(0, n).subrange(0, n - 1));
        assert(b.subrange(0, n - 1) =~= b.subrange(0, n).subrange(0, n - 1));
        lemma_encode_entries_prefix(a, b, n - 1);
        assert(a[n - 1] == a.subrange(0, n)[n - 1]);
        assert(b[n - 1] == b.subrange(0, n)[n - 1]);
    }
}

/// Where the value of entry `j` stands in the encoding of the first `n`
/// entries.
pub open spec fn value_offset(entries: Seq<(Seq<u8>, Value)>, j: int) -> int {
    (encode_entries(entries, j).len() + encode_bytes(entries[j].0).len()) as int
}

/// The encoding of entries holds the encoding of the value of each of them.
proof fn lemma_value_within_entries(entries: Seq<(Seq<u8>, Value)>, j: int, n: int)
    requires
        0 <= j < n <= entries.len(),
    ensures
        value_offset(entries, j) + encode(entries[j].1).len() <= encode_entries(entries, n).len(),
        encode_entries(entries, n).subrange(
            value_offset(entries, j),
            value_offset(entries, j) + encode(entries[j].1).len(),
        ) == encode(entries[j].1),
    decreases n,
{
    let off = value_offset(entries, j);
    let enc = encode(entries[j].1);
    if n == j + 1 {
        assert(encode_entries(entries, n) == encode_entries(entries, j) + encode_bytes(
            entries[j].0,
        ) + enc);
        assert(encode_entries(entries, n).subrange(off, off + enc.len()) =~= enc);
    } else {
        lemma_value_within_entries(entries, j, n - 1);
        let shorter = encode_entries(entries, n - 1);
        assert(encode_entries(entries, n) == shorter + encode_bytes(entries[n - 1].0) + encode(
            entries[n - 1].1,
        ));
        assert(encode_entries(entries, n).subrange(off, off + enc.len()) =~= shorter.subrange(
            off,
            off + enc.len(),
        ));
    }
}

/// A value that is found under a key is the value of one of the entries.
proof fn lemma_lookup_finds(entries: Seq<(Seq<u8>, Value)>, name: Seq<u8>, from: int) -> (j: int)
    requires
        0 <= from,
        lookup_from(entries, name, from) is Some,
    ensures
        from <= j < entries.len(),
        entries[j].0 == name,
        entries[j].1 == lookup_from(entries, name, from)->0,
    decreases entries.len() - from,
{
    if entries[from].0 == name {
        from
    } else {
        lemma_lookup_finds(entries, name, from + 1)
    }
}

/// The info-hash of a torrent that was read from a metafile is the SHA-1 of
/// the encoding of the `info` dictionary of the metafile, and that encoding
/// stands in the metafile byte for byte.
pub proof fn lemma_info_hash_of_metafile(m: Seq<u8>)
    requires
        metafile(m) is Some,
    ensures
        decode(m) is Some,
        lookup(decode(m)->0, key("info")) is Some,
        metafile(m)->0.info_bytes == encode(lookup(decode(m)->0, key("info"))->0),
        sha1(metafile(m)->0.info_bytes) == sha1(encode(lookup(decode(m)->0, key("info"))->0)),
        exists|from: int, to: int|
            0 <= from <= to <= m.len() && #[trigger] m.subrange(from, to) == metafile(
                m,
            )->0.info_bytes,
{
    let top = decode(m)->0;
    let info = lookup(top, key("info"))->0;
    lemma_decode_sound(m);
    let entries = top->Dict_0;
    let j = lemma_lookup_finds(entries, key("info"), 0);
    let n = entries.len() as int;
    lemma_value_within_entries(entries, j, n);
    let off = value_offset(entries, j);
    let inner = encode_entries(entries, n);
    assert(m == seq![0x64u8] + inner + seq![0x65u8]);
    assert(m.subrange(1 + off, 1 + off + encode(info).len()) =~= inner.subrange(
        off,
        off + encode(info).len(),
    ));
}

/// An entry more, under another key, does not change what is found under a key.
proof fn lemma_lookup_after_insert(
    entries: Seq<(Seq<u8>, Value)>,
    at: int,
    entry: (Seq<u8>, Value),
    name: Seq<u8>,
    from: int,
)
    requires
        0 <= at <= entries.len(),
        0 <= from <= entries.len(),
        entry.0 != name,
    ensures
        from >= at ==> lookup_from(entries.insert(at, entry), name, from + 1) == lookup_from(
            entries,
            name,
            from,
        ),
        from <= at ==> lookup_from(entries.insert(at, entry), name, from) == lookup_from(
            entries,
            name,
            from,
        ),
    decreases entries.len() - from,
{
    let more = entries.insert(at, entry);
    if from < entries.len() {
        lemma_lookup_after_insert(entries, at, entry, name, from + 1);
        if from >= at {
            assert(more[from + 1] == entries[from]);
        }
        if from < at {
            assert(more[from] == entries[from]);
        }
    }
    if from == at {
        assert(more[at] == entry);
    }
}

/// Whether a key is one of those that are read at the top of a metafile.
pub open spec fn read_at_top(name: Seq<u8>) -> bool {
    name == key("info") || name == key("announce") || name == key("announce-list")
}

/// A key more outside of `info` changes neither the torrent nor its
/// info-hash: a metafile with an entry more at its top, under a key that is
/// not read, describes the same torrent with the same bytes of `info`.
pub proof fn lemma_unread_key_outside_info(
    entries: Seq<(Seq<u8>, Value)>,
    at: int,
    entry: (Seq<u8>, Value),
)
    requires
        0 <= at <= entries.len(),
        fits(Value::Dict(entries), MAX_DEPTH as nat),
        fits(entry.1, (MAX_DEPTH - 1) as nat),
        !read_at_top(entry.0),
    ensures
        fits(Value::Dict(entries.insert(at, entry)), MAX_DEPTH as nat),
        metafile(encode(Value::Dict(entries.insert(at, entry)))) == metafile(
            encode(Value::Dict(entries)),
        ),
        metafile(encode(Value::Dict(entries))) is Some ==> sha1(
            metafile(encode(Value::Dict(entries.insert(at, entry))))->0.info_bytes,
        ) == sha1(metafile(encode(Value::Dict(entries)))->0.info_bytes),
{
    let more = entries.insert(at, entry);
    assert forall|k: int| 0 <= k < more.len() implies fits(
        (#[trigger] more[k]).1,
        (MAX_DEPTH - 1) as nat,
    ) by {
        if k < at {
            assert(more[k] == entries[k]);
        } else if k > at {
            assert(more[k] == entries[k - 1]);
        }
    }
    lemma_decode_complete(Value::Dict(entries));
    lemma_decode_complete(Value::Dict(more));
    lemma_lookup_after_insert(entries, at, entry, key("info"), 0);
    lemma_lookup_after_insert(entries, at, entry, key("announce"), 0);
    lemma_lookup_after_insert(entries, at, entry, key("announce-list"), 0);
}

/// The encoding of entries with one more among them is longer by the
/// encoding of that entry.
proof fn lemma_encode_entries_insert(
    entries: Seq<(Seq<u8>, Value)>,
    at: int,
    entry: (Seq<u8>, Value),
    n: int,
)
    requires
        0 <= at <= n <= entries.len(),
    ensures
        encode_entries(entries.insert(at, entry), n + 1).len() == encode_entries(entries, n).len()
            + encode_bytes(entry.0).len() + encode(entry.1).len(),
    decreases n,
{
    let more = entries.insert(at, entry);
    if n == at {
        assert(more.subrange(0, at) =~= entries.subrange(0, at));
        lemma_encode_entries_prefix(more, entries, at);
        assert(more[at] == entry);
    } else {
        lemma_encode_entries_insert(entries, at, entry, n - 1);
        assert(more[n] == entries[n - 1]);
    }
}

/// A key more in `info` changes the bytes that the info-hash is taken over:
/// of two metafiles whose `info` dictionaries differ by one entry, the
/// bytes of `info` differ.
pub proof fn lemma_key_inside_info(
    a: Seq<u8>,
    b: Seq<u8>,
    entries: Seq<(Seq<u8>, Value)>,
    at: int,
    entry: (Seq<u8>, Value),
)
    requires
        0 <= at <= entries.len(),
        metafile(a) is Some,
        metafile(b) is Some,
        lookup(decode(a)->0, key("info")) == Some(Value::Dict(entries)),
        lookup(decode(b)->0, key("info")) == Some(Value::Dict(entries.insert(at, entry))),
    ensures
        metafile(a)->0.info_bytes != metafile(b)->0.info_bytes,
        metafile(b)->0.info_bytes.len() > metafile(a)->0.info_bytes.len(),
{
    lemma_encode_entries_insert(entries, at, entry, entries.len() as int);
    lemma_encode_starts(entry.1);
    let more = entries.insert(at, entry);
    let before = encode(Value::Dict(entries));
    let after = encode(Value::Dict(more));
    assert(metafile(a)->0.info_bytes == before);
    assert(metafile(b)->0.info_bytes == after);
    assert(before.len() == encode_entries(entries, entries.len() as int).len() + 2);
    assert(more.len() == entries.len() + 1);
    assert(after.len() == encode_entries(more, more.len() as int).len() + 2);
}

} // verus!
