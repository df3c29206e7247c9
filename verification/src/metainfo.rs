//! Reading a metafile: a bencoded dictionary that describes a torrent.
//!
//! The keys that are read are `announce`, `announce-list` and `info` at the
//! top, and `name`, `piece length`, `pieces`, `length` and `files` in `info`.
//! Other keys are passed over. They still count for the info-hash, which is
//! taken over the whole `info` dictionary as it stands in the metafile.

use vstd::prelude::*;
use vstd::utf8::{decode_utf8, encode_utf8, valid_utf8};
use crate::bencode::{decode, encode, item_views, lookup, parse, Node, Value};
use crate::codec::copy_range;
use crate::error::Error;
use crate::torrent::{
    file_views, valid_info, File, FileView, Info, InfoView, Torrent, TorrentView,
};

verus! {

/// The text that a vector of bytes holds in UTF-8, or `None` where the bytes
/// are not UTF-8.
///
/// Trusted: this is `String::from_utf8` of the standard library, which
/// checks that the bytes are valid UTF-8 and, if they are, makes them the
/// contents of the string.
#[verifier::external_body]
pub(crate) fn string_from_utf8(bytes: Vec<u8>) -> (r: Option<String>)
    ensures
        r is Some <==> valid_utf8(bytes@),
        r is Some ==> r->0@ == decode_utf8(bytes@),
{
    String::from_utf8(bytes).ok()
}

/// The bytes of a key.
pub open spec fn key(name: &str) -> Seq<u8> {
    encode_utf8(name@)
}

/// The text that a value holds: it is a byte string in UTF-8.
pub open spec fn text(v: Value) -> Option<Seq<char>> {
    match v {
        Value::Bytes(s) => if valid_utf8(s) {
            Some(decode_utf8(s))
        } else {
            None
        },
        _ => None,
    }
}

/// Whether every one of the values holds a text.
pub open spec fn all_texts(items: Seq<Value>) -> bool {
    forall|i: int| 0 <= i < items.len() ==> text(#[trigger] items[i]) is Some
}

/// The texts that a value holds: it is a list of texts.
pub open spec fn texts(v: Value) -> Option<Seq<Seq<char>>> {
    match v {
        Value::List(items) => if all_texts(items) {
            Some(Seq::new(items.len(), |i: int| text(items[i])->0))
        } else {
            None
        },
        _ => None,
    }
}

/// Whether every one of the values holds a list of texts.
pub open spec fn all_text_lists(items: Seq<Value>) -> bool {
    forall|i: int| 0 <= i < items.len() ==> texts(#[trigger] items[i]) is Some
}

/// The lists of texts that a value holds: it is a list of lists of texts.
pub open spec fn text_lists(v: Value) -> Option<Seq<Seq<Seq<char>>>> {
    match v {
        Value::List(items) => if all_text_lists(items) {
            Some(Seq::new(items.len(), |i: int| texts(items[i])->0))
        } else {
            None
        },
        _ => None,
    }
}

/// A number that a metafile may state as a length: it is not negative and
/// fits a signed 64-bit number.
pub open spec fn length_of(v: Option<Value>) -> Option<u64> {
    match v {
        Some(Value::Int(n)) => if 0 <= n <= i64::MAX {
            Some(n as u64)
        } else {
            None
        },
        _ => None,
    }
}

/// The file that a value describes: a dictionary with a `length` and a
/// `path`, which is a list of texts.
pub open spec fn file_view(v: Value) -> Option<FileView> {
    let length = length_of(lookup(v, key("length")));
    let path = lookup(v, key("path"));
    if length is Some && path is Some && texts(path->0) is Some {
        Some(FileView { path: texts(path->0)->0, length: length->0 })
    } else {
        None
    }
}

/// Whether every one of the values describes a file.
pub open spec fn all_files(items: Seq<Value>) -> bool {
    forall|i: int| 0 <= i < items.len() ==> file_view(#[trigger] items[i]) is Some
}

/// The files that a value describes: it is a list of files.
pub open spec fn file_list(v: Value) -> Option<Seq<FileView>> {
    match v {
        Value::List(items) => if all_files(items) {
            Some(Seq::new(items.len(), |i: int| file_view(items[i])->0))
        } else {
            None
        },
        _ => None,
    }
}

/// What an `info` dictionary describes. It must have a `name`, which is a
/// text, `pieces`, which is a byte string, and a `piece length`. Where it
/// has a `length`, that is an integer; where it has `files`, that is a list
/// of files.
pub open spec fn info_view(v: Value) -> Option<InfoView> {
    let name = lookup(v, key("name"));
    let pieces = lookup(v, key("pieces"));
    let piece_length = length_of(lookup(v, key("piece length")));
    let length = lookup(v, key("length"));
    let files = lookup(v, key("files"));
    if name is Some && text(name->0) is Some && pieces is Some && pieces->0 is Bytes
        && piece_length is Some && (length is Some ==> length->0 is Int && i64::MIN
        <= length->0->Int_0 <= i64::MAX) && (files is Some ==> file_list(files->0) is Some) {
        Some(
            InfoView {
                name: text(name->0)->0,
                pieces: pieces->0->Bytes_0,
                piece_length: piece_length->0,
                length: if length is Some {
                    Some(length->0->Int_0 as i64)
                } else {
                    None
                },
                files: if files is Some {
                    file_list(files->0)
                } else {
                    None
                },
            },
        )
    } else {
        None
    }
}

/// What a metafile describes. It must have an `info` dictionary. Where it
/// has an `announce`, that is a text; where it has an `announce-list`, that
/// is a list of lists of texts. The bytes of `info` are its encoding.
pub open spec fn torrent_view(v: Value) -> Option<TorrentView> {
    let info = lookup(v, key("info"));
    let announce = lookup(v, key("announce"));
    let announce_list = lookup(v, key("announce-list"));
    if info is Some && info_view(info->0) is Some && (announce is Some ==> text(announce->0)
        is Some) && (announce_list is Some ==> text_lists(announce_list->0) is Some) {
        Some(
            TorrentView {
                info: info_view(info->0)->0,
                announce: if announce is Some {
                    text(announce->0)
                } else {
                    None
                },
                announce_list: if announce_list is Some {
                    text_lists(announce_list->0)
                } else {
                    None
                },
                info_bytes: encode(info->0),
            },
        )
    } else {
        None
    }
}

/// The torrent that a metafile describes: the metafile is one bencoded
/// value that describes a torrent, and the description is valid.
pub open spec fn metafile(b: Seq<u8>) -> Option<TorrentView> {
    match decode(b) {
        Some(v) => match torrent_view(v) {
            Some(t) => if valid_info(t.info) {
                Some(t)
            } else {
                None
            },
            None => None,
        },
        None => None,
    }
}

/// The value under a key of a dictionary.
fn field<'a>(node: &'a Node, name: &str) -> (r: Option<&'a Node>)
    ensures
        match lookup(node@, key(name)) {
            Some(v) => r is Some && r->0@ == v,
            None => r is None,
        },
{
    node.get(name.as_bytes())
}

/// Reads a text.
fn read_text(node: &Node) -> (r: Option<String>)
    ensures
        match text(node@) {
            Some(t) => r is Some && r->0@ == t,
            None => r is None,
        },
{
    match node.as_bytes() {
        Some(s) => match copy_range(s.as_slice(), 0, s.len()) {
            Some(bytes) => {
                assert(bytes@ =~= s@);
                string_from_utf8(bytes)
            },
            None => None,
        },
        None => None,
    }
}

/// Reads a list of texts.
fn read_texts(node: &Node) -> (r: Option<Vec<String>>)
    ensures
        match texts(node@) {
            Some(t) => r is Some && r->0.deep_view() == t,
            None => r is None,
        },
{
    let items = match node.as_list() {
        Some(items) => items,
        None => { return None; },
    };
    let ghost values = item_views(items@);
    let mut out: Vec<String> = Vec::new();
    let mut i: usize = 0;
    while i < items.len()
        invariant
            i <= items@.len(),
            values == item_views(items@),
            node@ == Value::List(values),
            out@.len() == i,
            forall|k: int| 0 <= k < i ==> text(#[trigger] values[k]) == Some(out@[k]@),
        decreases items@.len() - i,
    {
        assert(values[i as int] == items@[i as int]@);
        match read_text(&items[i]) {
            Some(t) => { out.push(t); },
            None => {
                assert(!all_texts(values));
                return None;
            },
        }
        i = i + 1;
    }
    assert(all_texts(values));
    assert(out.deep_view() =~= texts(node@)->0);
    Some(out)
}

/// Reads a list of lists of texts.
fn read_text_lists(node: &Node) -> (r: Option<Vec<Vec<String>>>)
    ensures
        match text_lists(node@) {
            Some(t) => r is Some && r->0.deep_view() == t,
            None => r is None,
        },
{
    let items = match node.as_list() {
        Some(items) => items,
        None => { return None; },
    };
    let ghost values = item_views(items@);
    let mut out: Vec<Vec<String>> = Vec::new();
    let mut i: usize = 0;
    while i < items.len()
        invariant
            i <= items@.len(),
            values == item_views(items@),
            node@ == Value::List(values),
            out@.len() == i,
            forall|k: int| 0 <= k < i ==> texts(#[trigger] values[k]) == Some(out@[k].deep_view()),
        decreases items@.len() - i,
    {
        assert(values[i as int] == items@[i as int]@);
        match read_texts(&items[i]) {
            Some(t) => { out.push(t); },
            None => {
                assert(!all_text_lists(values));
                return None;
            },
        }
        i = i + 1;
    }
    assert(all_text_lists(values));
    assert(out.deep_view() =~= text_lists(node@)->0);
    Some(out)
}

/// Reads a length.
fn read_length(node: Option<&Node>) -> (r: Option<u64>)
    ensures
        r == length_of(
            match node {
                Some(n) => Some(n@),
                None => None,
            },
        ),
{
    match node {
        Some(n) => match n.as_int() {
            Some(i) => if i >= 0 {
                Some(i as u64)
            } else {
                None
            },
            None => None,
        },
        None => None,
    }
}

/// Reads the description of a file.
fn read_file(node: &Node) -> (r: Option<File>)
    ensures
        match file_view(node@) {
            Some(f) => r is Some && r->0@ == f,
            None => r is None,
        },
{
    let length = match read_length(field(node, "length")) {
        Some(n) => n,
        None => { return None; },
    };
    let path = match field(node, "path") {
        Some(p) => match read_texts(p) {
            Some(t) => t,
            None => { return None; },
        },
        None => { return None; },
    };
    Some(File { path, length })
}

/// Reads a list of files.
fn read_files(node: &Node) -> (r: Option<Vec<File>>)
    ensures
        match file_list(node@) {
            Some(f) => r is Some && file_views(r->0@) == f,
            None => r is None,
        },
{
    let items = match node.as_list() {
        Some(items) => items,
        None => { return None; },
    };
    let ghost values = item_views(items@);
    let mut out: Vec<File> = Vec::new();
    let mut i: usize = 0;
    while i < items.len()
        invariant
            i <= items@.len(),
            values == item_views(items@),
            node@ == Value::List(values),
            out@.len() == i,
            forall|k: int| 0 <= k < i ==> file_view(#[trigger] values[k]) == Some(out@[k]@),
        decreases items@.len() - i,
    {
        assert(values[i as int] == items@[i as int]@);
        match read_file(&items[i]) {
            Some(f) => { out.push(f); },
            None => {
                assert(!all_files(values));
                return None;
            },
        }
        i = i + 1;
    }
    assert(all_files(values));
    assert(file_views(out@) =~= file_list(node@)->0);
    Some(out)
}

/// Reads an `info` dictionary.
fn read_info(node: &Node) -> (r: Option<Info>)
    ensures
        match info_view(node@) {
            Some(i) => r is Some && r->0@ == i,
            None => r is None,
        },
{
    let name = match field(node, "name") {
        Some(n) => match read_text(n) {
            Some(t) => t,
            None => { return None; },
        },
        None => { return None; },
    };
    let pieces = match field(node, "pieces") {
        Some(p) => match p.as_bytes() {
            Some(s) => match copy_range(s.as_slice(), 0, s.len()) {
                Some(c) => {
                    assert(c@ =~= s@);
                    c
                },
                None => { return None; },
            },
            None => { return None; },
        },
        None => { return None; },
    };
    let piece_length = match read_length(field(node, "piece length")) {
        Some(n) => n,
        None => { return None; },
    };
    let length = match field(node, "length") {
        Some(l) => match l.as_int() {
            Some(i) => Some(i),
            None => { return None; },
        },
        None => None,
    };
    let files = match field(node, "files") {
        Some(f) => match read_files(f) {
            Some(list) => Some(list),
            None => { return None; },
        },
        None => None,
    };
    Some(Info { name, pieces, piece_length, length, files })
}

/// Reads the description of a torrent, without holding it to what a
/// download needs.
fn read_torrent(node: &Node) -> (r: Option<Torrent>)
    ensures
        match torrent_view(node@) {
            Some(t) => r is Some && r->0@ == t,
            None => r is None,
        },
{
    let info_node = match field(node, "info") {
        Some(n) => n,
        None => { return None; },
    };
    let info = match read_info(info_node) {
        Some(i) => i,
        None => { return None; },
    };
    let announce = match field(node, "announce") {
        Some(a) => match read_text(a) {
            Some(t) => Some(t),
            None => { return None; },
        },
        None => None,
    };
    let announce_list = match field(node, "announce-list") {
        Some(a) => match read_text_lists(a) {
            Some(t) => Some(t),
            None => { return None; },
        },
        None => None,
    };
    let info_bytes = info_node.encode();
    Some(Torrent { info, announce, announce_list, info_bytes })
}

impl Torrent {
    /// Reads a metafile. The metafile must be one bencoded dictionary that
    /// describes a torrent, and the description must be valid.
    pub fn from_bytes(buf: &[u8]) -> (r: Result<Torrent, Error>)
        ensures
            match metafile(buf@) {
                Some(t) => r is Ok && r->Ok_0@ == t,
                None => r is Err && r->Err_0 == Error::MetainfoInvalid,
            },
    {
        let node = match parse(buf) {
            Some(n) => n,
            None => { return Err(Error::MetainfoInvalid); },
        };
        let torrent = match read_torrent(&node) {
            Some(t) => t,
            None => { return Err(Error::MetainfoInvalid); },
        };
        match torrent.validate() {
            Ok(()) => Ok(torrent),
            Err(e) => Err(e),
        }
    }
}

} // verus!
