//! The lines that describe a torrent in the log.

use vstd::prelude::*;
use crate::hash::sha1;
use crate::text::{decimal_chars, push_char, push_decimal};
use crate::torrent::{file_views, File, FileView, Torrent, TorrentView};

verus! {

/// The upper-case hexadecimal digit for a value below sixteen.
pub open spec fn hex_digit(d: nat) -> char {
    if d < 10 {
        crate::text::digit_char(d)
    } else if d == 10 {
        'A'
    } else if d == 11 {
        'B'
    } else if d == 12 {
        'C'
    } else if d == 13 {
        'D'
    } else if d == 14 {
        'E'
    } else {
        'F'
    }
}

/// A byte in upper-case hexadecimal, without a leading zero.
pub open spec fn hex_chars(b: u8) -> Seq<char> {
    if b < 16 {
        seq![hex_digit(b as nat)]
    } else {
        seq![hex_digit((b / 16) as nat), hex_digit((b % 16) as nat)]
    }
}

/// The first `n` bytes in hexadecimal, with `, ` between them.
pub open spec fn hex_list(bytes: Seq<u8>, n: int) -> Seq<char>
    decreases n,
{
    if n <= 0 {
        Seq::empty()
    } else if n == 1 {
        hex_chars(bytes[0])
    } else {
        hex_list(bytes, n - 1) + ", "@ + hex_chars(bytes[n - 1])
    }
}

/// A number in decimal, with its sign where it is negative.
pub open spec fn signed_chars(n: int) -> Seq<char> {
    if n < 0 {
        "-"@ + decimal_chars((-n) as nat)
    } else {
        decimal_chars(n as nat)
    }
}

/// The line for the `length` of a torrent.
pub open spec fn length_line(length: Option<i64>) -> Seq<char> {
    match length {
        Some(n) => "Length:\t"@ + "Some("@ + signed_chars(n as int) + ")"@,
        None => "Length:\t"@ + "None"@,
    }
}

/// The lines for the first `n` groups of trackers: one for the first entry
/// of each group that has one.
pub open spec fn tracker_lines(groups: Seq<Seq<Seq<char>>>, n: int) -> Seq<Seq<char>>
    decreases n,
{
    if n <= 0 {
        Seq::empty()
    } else if groups[n - 1].len() > 0 {
        tracker_lines(groups, n - 1).push("  |>  "@ + groups[n - 1][0])
    } else {
        tracker_lines(groups, n - 1)
    }
}

/// The first `n` parts of a path, with `/` between them.
pub open spec fn joined(path: Seq<Seq<char>>, n: int) -> Seq<char>
    decreases n,
{
    if n <= 0 {
        Seq::empty()
    } else if n == 1 {
        path[0]
    } else {
        joined(path, n - 1) + "/"@ + path[n - 1]
    }
}

/// The line for a file: its name in brackets where it lies at the top, else
/// its path and its length.
pub open spec fn file_line(f: FileView) -> Seq<char> {
    if f.path.len() == 1 {
        " |--> [\""@ + f.path[0] + "\"]"@
    } else {
        " |--> "@ + joined(f.path, f.path.len() as int) + ": "@ + decimal_chars(f.length as nat)
            + "B"@
    }
}

/// The lines for those of the first `n` files whose path has `parts` parts,
/// in the order of the files.
pub open spec fn lines_with_parts(files: Seq<FileView>, parts: int, n: int) -> Seq<Seq<char>>
    decreases n,
{
    if n <= 0 {
        Seq::empty()
    } else if files[n - 1].path.len() == parts {
        lines_with_parts(files, parts, n - 1).push(file_line(files[n - 1]))
    } else {
        lines_with_parts(files, parts, n - 1)
    }
}

/// The lines for the files whose path has fewer than `upto` parts: those
/// with the shorter paths first, and files with paths of the same length in
/// the order in which they stand.
pub open spec fn file_lines(files: Seq<FileView>, upto: int) -> Seq<Seq<char>>
    decreases upto,
{
    if upto <= 0 {
        Seq::empty()
    } else {
        file_lines(files, upto - 1) + lines_with_parts(files, upto - 1, files.len() as int)
    }
}

/// The greatest number of parts that the path of one of the first `n` files has.
pub open spec fn longest_path(files: Seq<FileView>, n: int) -> int
    decreases n,
{
    if n <= 0 {
        0
    } else if files[n - 1].path.len() > longest_path(files, n - 1) {
        files[n - 1].path.len() as int
    } else {
        longest_path(files, n - 1)
    }
}

/// The lines that describe a torrent with the given info-hash: its name,
/// its trackers, its info-hash, its length and its files.
pub open spec fn report(t: TorrentView, hash: Seq<u8>) -> Seq<Seq<char>> {
    seq![""@, "-->    Torrent Information    <--"@, "Name:\t\t"@ + t.info.name, "Trackers"@] + (
    match t.announce_list {
        Some(groups) => tracker_lines(groups, groups.len() as int),
        None => Seq::empty(),
    }) + seq![
        "InfoHash:\t["@ + hex_list(hash, hash.len() as int) + "]"@,
        length_line(t.info.length),
        "Files:"@,
    ] + (match t.info.files {
        Some(files) => seq!["./"@] + file_lines(
            files,
            longest_path(files, files.len() as int) + 1,
        ),
        None => seq!["./"@ + t.info.name],
    })
}

fn hex_char(d: u8) -> (c: char)
    requires
        d < 16,
    ensures
        c == hex_digit(d as nat),
{
    if d == 0 {
        '0'
    } else if d == 1 {
        '1'
    } else if d == 2 {
        '2'
    } else if d == 3 {
        '3'
    } else if d == 4 {
        '4'
    } else if d == 5 {
        '5'
    } else if d == 6 {
        '6'
    } else if d == 7 {
        '7'
    } else if d == 8 {
        '8'
    } else if d == 9 {
        '9'
    } else if d == 10 {
        'A'
    } else if d == 11 {
        'B'
    } else if d == 12 {
        'C'
    } else if d == 13 {
        'D'
    } else if d == 14 {
        'E'
    } else {
        'F'
    }
}

/// The line for an info-hash.
fn hash_line(hash: &[u8]) -> (line: String)
    ensures
        line@ == "InfoHash:\t["@ + hex_list(hash@, hash@.len() as int) + "]"@,
{
    let mut line = "InfoHash:\t[".to_owned();
    let ghost head = line@;
    let mut i: usize = 0;
    while i < hash.len()
        invariant
            i <= hash@.len(),
            line@ == head + hex_list(hash@, i as int),
        decreases hash@.len() - i,
    {
        if i > 0 {
            line.append(", ");
        }
        let b = hash[i];
        if b >= 16 {
            push_char(&mut line, hex_char(b / 16));
            push_char(&mut line, hex_char(b % 16));
        } else {
            push_char(&mut line, hex_char(b));
        }
        i = i + 1;
        assert(line@ =~= head + hex_list(hash@, i as int));
    }
    line.append("]");
    line
}

/// The line for the `length` of a torrent.
fn length_text(length: Option<i64>) -> (line: String)
    ensures
        line@ == length_line(length),
{
    let mut line = "Length:\t".to_owned();
    match length {
        Some(n) => {
            line.append("Some(");
            if n < 0 {
                line.append("-");
                let magnitude: u64 = if n == i64::MIN {
                    0x8000_0000_0000_0000
                } else {
                    (-n) as u64
                };
                push_decimal(&mut line, magnitude);
            } else {
                push_decimal(&mut line, n as u64);
            }
            line.append(")");
            assert(line@ =~= length_line(length));
        },
        None => {
            line.append("None");
        },
    }
    line
}

/// The line for a file.
fn file_text(file: &File) -> (line: String)
    ensures
        line@ == file_line(file@),
{
    let ghost path = file@.path;
    if file.path.len() == 1 {
        let mut line = " |--> [\"".to_owned();
        line.append(file.path[0].as_str());
        line.append("\"]");
        assert(path[0] == file.path@[0]@);
        assert(line@ =~= file_line(file@));
        return line;
    }
    let mut line = " |--> ".to_owned();
    let ghost head = line@;
    let mut k: usize = 0;
    while k < file.path.len()
        invariant
            k <= file.path@.len(),
            file.path@.len() != 1,
            path == file@.path,
            path == file.path.deep_view(),
            line@ == head + joined(path, k as int),
        decreases file.path@.len() - k,
    {
        if k > 0 {
            line.append("/");
        }
        line.append(file.path[k].as_str());
        assert(path[k as int] == file.path@[k as int]@);
        k = k + 1;
        assert(line@ =~= head + joined(path, k as int));
    }
    line.append(": ");
    push_decimal(&mut line, file.length);
    line.append("B");
    assert(line@ =~= file_line(file@));
    line
}

impl Torrent {
    /// The lines that describe the torrent in the log.
    pub fn log_useful_information(&self) -> (lines: Vec<String>)
        ensures
            lines.deep_view() == report(self@, sha1(self.info_bytes@)),
    {
        let mut lines: Vec<String> = Vec::new();
        lines.push("".to_owned());
        lines.push("-->    Torrent Information    <--".to_owned());
        let mut name = "Name:\t\t".to_owned();
        name.append(self.info.name.as_str());
        lines.push(name);
        lines.push("Trackers".to_owned());
        let ghost head = lines.deep_view();
        assert(head =~= seq![
            ""@,
            "-->    Torrent Information    <--"@,
            "Name:\t\t"@ + self@.info.name,
            "Trackers"@,
        ]);
        match &self.announce_list {
            Some(groups) => {
                let ghost texts = groups.deep_view();
                assert(self@.announce_list == Some(texts));
                let mut i: usize = 0;
                while i < groups.len()
                    invariant
                        i <= groups@.len(),
                        texts == groups.deep_view(),
                        lines.deep_view() == head + tracker_lines(texts, i as int),
                    decreases groups@.len() - i,
                {
                    let group = &groups[i];
                    assert(texts[i as int] == group.deep_view());
                    if group.len() > 0 {
                        let mut line = "  |>  ".to_owned();
                        line.append(group[0].as_str());
                        assert(texts[i as int][0] == group@[0]@);
                        let ghost before = lines.deep_view();
                        lines.push(line);
                        assert(lines.deep_view() =~= before.push(line@));
                    }
                    i = i + 1;
                    assert(lines.deep_view() =~= head + tracker_lines(texts, i as int));
                }
            },
            None => {
                assert(lines.deep_view() =~= head + Seq::<Seq<char>>::empty());
            },
        }
        let ghost trackers = lines.deep_view();
        let hash = self.get_info_hash();
        lines.push(hash_line(hash.as_slice()));
        lines.push(length_text(self.info.length));
        lines.push("Files:".to_owned());
        let ghost middle = lines.deep_view();
        assert(middle =~= trackers + seq![
            "InfoHash:\t["@ + hex_list(hash@, hash@.len() as int) + "]"@,
            length_line(self@.info.length),
            "Files:"@,
        ]);
        match &self.info.files {
            None => {
                let mut line = "./".to_owned();
                line.append(self.info.name.as_str());
                lines.push(line);
                assert(lines.deep_view() =~= middle + seq!["./"@ + self@.info.name]);
            },
            Some(files) => {
                let ghost views = file_views(files@);
                assert(self@.info.files == Some(views));
                lines.push("./".to_owned());
                let ghost top = lines.deep_view();
                assert(top =~= middle + seq!["./"@]);
                let mut longest: usize = 0;
                let mut i: usize = 0;
                while i < files.len()
                    invariant
                        i <= files@.len(),
                        views == file_views(files@),
                        longest == longest_path(views, i as int),
                    decreases files@.len() - i,
                {
                    assert(views[i as int] == files@[i as int]@);
                    if files[i].path.len() > longest {
                        longest = files[i].path.len();
                    }
                    i = i + 1;
                }
                let mut parts: u128 = 0;
                assert(lines.deep_view() =~= top + file_lines(views, 0));
                while parts <= longest as u128
                    invariant
                        parts <= longest + 1,
                        views == file_views(files@),
                        longest == longest_path(views, files@.len() as int),
                        lines.deep_view() == top + file_lines(views, parts as int),
                    decreases longest + 1 - parts,
                {
                    let ghost start = lines.deep_view();
                    let mut j: usize = 0;
                    assert(lines.deep_view() =~= start + lines_with_parts(views, parts as int, 0));
                    while j < files.len()
                        invariant
                            j <= files@.len(),
                            parts <= longest,
                            views == file_views(files@),
                            lines.deep_view() == start + lines_with_parts(
                                views,
                                parts as int,
                                j as int,
                            ),
                        decreases files@.len() - j,
                    {
                        assert(views[j as int] == files@[j as int]@);
                        if files[j].path.len() as u128 == parts {
                            let line = file_text(&files[j]);
                            let ghost before = lines.deep_view();
                            lines.push(line);
                            assert(lines.deep_view() =~= before.push(line@));
                        }
                        j = j + 1;
                        assert(lines.deep_view() =~= start + lines_with_parts(
                            views,
                            parts as int,
                            j as int,
                        ));
                    }
                    assert(lines.deep_view() =~= top + file_lines(views, parts + 1));
                    parts = parts + 1;
                }
                assert(lines.deep_view() =~= middle + (seq!["./"@] + file_lines(
                    views,
                    longest_path(views, views.len() as int) + 1,
                )));
            },
        }
        lines
    }
}

} // verus!
