//! Clippings: records of five lines, grouped by book title and rendered as
//! Markdown lists.

use core::ops::Range;
use vstd::prelude::*;
use vstd::string::*;

use crate::errors::ExportError;

verus! {

/// The pattern that a position line is searched for: two runs of digits with
/// a hyphen between them.
pub const RANGE_PATTERN: &'static str = "(\\d+)-(\\d+)";

pub open spec fn is_digit(c: char) -> bool {
    '0' <= c && c <= '9'
}

pub open spec fn all_digits(s: Seq<char>) -> bool {
    forall|i: int| 0 <= i < s.len() ==> is_digit(#[trigger] s[i])
}

/// The number that a run of ASCII digits writes in base ten.
pub open spec fn digits_value(s: Seq<char>) -> nat
    decreases s.len(),
{
    if s.len() == 0 {
        0
    } else {
        digits_value(s.drop_last()) * 10 + ((s.last() as u32 - '0' as u32) as nat)
    }
}

/// What an unsigned decimal numeral means as an `i32`: nothing if it is
/// empty, holds anything but ASCII digits, or exceeds `i32::MAX`.
pub open spec fn decimal_i32(s: Seq<char>) -> Option<i32> {
    if s.len() > 0 && all_digits(s) && digits_value(s) <= i32::MAX {
        Some(digits_value(s) as i32)
    } else {
        None
    }
}

proof fn lemma_prefix_value(s: Seq<char>, j: int)
    requires
        0 <= j <= s.len(),
    ensures
        digits_value(s.take(j)) <= digits_value(s),
    decreases s.len(),
{
    if j == s.len() {
        assert(s.take(j) =~= s);
    } else {
        assert(s.drop_last().take(j) =~= s.take(j));
        lemma_prefix_value(s.drop_last(), j);
    }
}

/// Reads an unsigned decimal numeral. A captured digit run carries no sign,
/// so none is accepted.
pub fn parse_decimal(s: &str) -> (r: Option<i32>)
    ensures
        r == decimal_i32(s@),
{
    if !s.is_ascii() {
        return None;
    }
    let n = s.unicode_len();
    if n == 0 {
        return None;
    }
    let mut acc: i32 = 0;
    let mut i: usize = 0;
    while i < n
        invariant
            i <= n,
            n == s@.len(),
            s.is_ascii(),
            all_digits(s@.take(i as int)),
            0 <= acc,
            acc == digits_value(s@.take(i as int)),
        decreases n - i,
    {
        let c = s.get_ascii(i);
        if c < 48 || c > 57 {
            proof {
                assert(!is_digit(s@[i as int]));
            }
            return None;
        }
        let d: i32 = (c - 48) as i32;
        proof {
            assert(s@.take(i + 1).drop_last() =~= s@.take(i as int));
            assert(s@.take(i + 1).last() == s@[i as int]);
            lemma_prefix_value(s@, i + 1);
        }
        if acc > (i32::MAX - d) / 10 {
            return None;
        }
        acc = acc * 10 + d;
        i += 1;
    }
    proof {
        assert(s@.take(n as int) =~= s@);
    }
    Some(acc)
}

/// The two groups that `pattern` captures at its leftmost match in `text`;
/// nothing where `pattern` does not compile, matches nowhere, or has fewer
/// than two groups that took part in the match.
pub uninterp spec fn regex_pair(pattern: Seq<char>, text: Seq<char>) -> Option<(Seq<char>, Seq<char>)>;

/// Calls `regex::Regex::new` and `regex::Regex::captures`, and copies the
/// text of groups 1 and 2 out of the match. Believed, not proved: the
/// result is `regex_pair` of the two arguments.
#[verifier::external_body]
fn capture_pair(pattern: &str, text: &str) -> (r: Option<(String, String)>)
    ensures
        match r {
            Some(p) => regex_pair(pattern@, text@) == Some((p.0@, p.1@)),
            None => regex_pair(pattern@, text@) is None,
        },
{
    let re = regex::Regex::new(pattern).ok()?;
    let caps = re.captures(text)?;
    Some((caps.get(1)?.as_str().to_string(), caps.get(2)?.as_str().to_string()))
}

/// The range that two captured numerals denote, if both are numbers.
pub open spec fn range_of_pair(caps: Option<(Seq<char>, Seq<char>)>) -> Option<(i32, i32)> {
    match caps {
        Some((a, b)) => match (decimal_i32(a), decimal_i32(b)) {
            (Some(x), Some(y)) => Some((x, y)),
            _ => None,
        },
        None => None,
    }
}

/// The range that a position line gives.
pub open spec fn range_of(line: Seq<char>) -> Option<(i32, i32)> {
    range_of_pair(regex_pair(RANGE_PATTERN@, line))
}

pub open spec fn caps_view(caps: Option<(String, String)>) -> Option<(Seq<char>, Seq<char>)> {
    match caps {
        Some(p) => Some((p.0@, p.1@)),
        None => None,
    }
}

pub open spec fn range_view(r: Option<Range<i32>>) -> Option<(i32, i32)> {
    match r {
        Some(p) => Some((p.start, p.end)),
        None => None,
    }
}

/// Turns the captured numerals into a range.
pub fn range_from_captures(caps: &Option<(String, String)>) -> (r: Option<Range<i32>>)
    ensures
        range_view(r) == range_of_pair(caps_view(*caps)),
{
    match caps {
        Some(p) => {
            let start = match parse_decimal(p.0.as_str()) {
                Some(v) => v,
                None => {
                    return None;
                },
            };
            let end = match parse_decimal(p.1.as_str()) {
                Some(v) => v,
                None => {
                    return None;
                },
            };
            Some(Range { start, end })
        },
        None => None,
    }
}

/// Reads a mark position, written `start-end` anywhere in the line.
pub fn try_parse_range(s: &str) -> (r: Option<Range<i32>>)
    ensures
        range_view(r) == range_of(s@),
{
    let caps = capture_pair(RANGE_PATTERN, s);
    range_from_captures(&caps)
}


/// One highlighted passage.
#[derive(Debug)]
pub struct Note {
    /// Where the mark stands in the book: `start` up to, not including, `end`.
    pub pos: Range<i32>,
    /// The marked text.
    pub text: String,
}

pub struct NoteSpec {
    pub start: int,
    pub end: int,
    pub text: Seq<char>,
}

impl View for Note {
    type V = NoteSpec;

    open spec fn view(&self) -> NoteSpec {
        NoteSpec { start: self.pos.start as int, end: self.pos.end as int, text: self.text@ }
    }
}

/// A book and its notes, in the order in which their positions first occurred.
#[derive(Debug)]
pub struct Book {
    pub title: String,
    pub notes: Vec<Note>,
}

pub struct BookSpec {
    pub title: Seq<char>,
    pub notes: Seq<NoteSpec>,
}

impl View for Book {
    type V = BookSpec;

    open spec fn view(&self) -> BookSpec {
        BookSpec { title: self.title@, notes: notes_view(self.notes@) }
    }
}

pub open spec fn notes_view(notes: Seq<Note>) -> Seq<NoteSpec> {
    Seq::new(notes.len(), |i: int| notes[i]@)
}

pub open spec fn books_view(books: Seq<Book>) -> Seq<BookSpec> {
    Seq::new(books.len(), |i: int| books[i]@)
}

pub open spec fn lines_view(lines: Seq<String>) -> Seq<Seq<char>> {
    Seq::new(lines.len(), |i: int| lines[i]@)
}

pub open spec fn pairs_view(pairs: Seq<(String, String)>) -> Seq<(Seq<char>, Seq<char>)> {
    Seq::new(pairs.len(), |i: int| (pairs[i].0@, pairs[i].1@))
}

/// The first index at or after `from` of a note that starts at `start`; the
/// length where there is none.
pub open spec fn find_start(notes: Seq<NoteSpec>, start: int, from: int) -> int
    decreases notes.len() - from,
{
    if from < 0 || from >= notes.len() {
        notes.len() as int
    } else if notes[from].start == start {
        from
    } else {
        find_start(notes, start, from + 1)
    }
}

/// A note takes the place of the one that starts where it does, or goes to
/// the end.
pub open spec fn upsert(notes: Seq<NoteSpec>, note: NoteSpec) -> Seq<NoteSpec> {
    let i = find_start(notes, note.start, 0);
    if i < notes.len() {
        notes.update(i, note)
    } else {
        notes.push(note)
    }
}

/// The first index at or after `from` of the book called `title`; the length
/// where there is none.
pub open spec fn find_title(books: Seq<BookSpec>, title: Seq<char>, from: int) -> int
    decreases books.len() - from,
{
    if from < 0 || from >= books.len() {
        books.len() as int
    } else if books[from].title == title {
        from
    } else {
        find_title(books, title, from + 1)
    }
}

/// A note goes to the book of its title; a title not seen before opens a new
/// book at the end.
pub open spec fn add_note_spec(books: Seq<BookSpec>, title: Seq<char>, note: NoteSpec) -> Seq<BookSpec> {
    let i = find_title(books, title, 0);
    if i < books.len() {
        books.update(i, BookSpec { title: books[i].title, notes: upsert(books[i].notes, note) })
    } else {
        books.push(BookSpec { title: title, notes: seq![note] })
    }
}

/// The title and the note that a record of five lines holds.
pub open spec fn note_of_record(rec: Seq<Seq<char>>) -> Option<(Seq<char>, NoteSpec)>
    recommends
        rec.len() == 5,
{
    match range_of(rec[1]) {
        Some((a, b)) => Some((rec[0], NoteSpec { start: a as int, end: b as int, text: rec[3] })),
        None => None,
    }
}

/// The `k`-th group of five lines.
pub open spec fn record_at(lines: Seq<Seq<char>>, k: int) -> Seq<Seq<char>> {
    lines.subrange(5 * k, 5 * k + 5)
}

/// The books after the first `k` records, or the position line of the first
/// record among them that gives no range.
pub open spec fn collect(lines: Seq<Seq<char>>, k: nat) -> core::result::Result<Seq<BookSpec>, Seq<char>>
    decreases k,
{
    if k == 0 {
        Ok(Seq::empty())
    } else {
        match collect(lines, (k - 1) as nat) {
            Err(line) => Err(line),
            Ok(books) => match note_of_record(record_at(lines, k - 1)) {
                Some((title, note)) => Ok(add_note_spec(books, title, note)),
                None => Err(record_at(lines, k - 1)[1]),
            },
        }
    }
}

pub open spec fn bullet() -> Seq<char> {
    seq!['-', ' ']
}

pub open spec fn paragraph_end() -> Seq<char> {
    seq!['\n', '\n']
}

/// Each note as a list item followed by an empty line.
pub open spec fn render(notes: Seq<NoteSpec>) -> Seq<char>
    decreases notes.len(),
{
    if notes.len() == 0 {
        Seq::empty()
    } else {
        render(notes.drop_last()) + bullet() + notes.last().text + paragraph_end()
    }
}

pub open spec fn rendered(books: Seq<BookSpec>) -> Seq<(Seq<char>, Seq<char>)> {
    Seq::new(books.len(), |i: int| (books[i].title, render(books[i].notes)))
}

/// What a sequence of lines parses to: each title with its rendered notes,
/// in the order in which the titles first occurred, or the position line
/// that was refused. Lines after the last full group of five do not count.
pub open spec fn parse_spec(lines: Seq<Seq<char>>) -> core::result::Result<Seq<(Seq<char>, Seq<char>)>, Seq<char>> {
    match collect(lines, (lines.len() / 5) as nat) {
        Ok(books) => Ok(rendered(books)),
        Err(line) => Err(line),
    }
}

/// Reads one record: title, position, an ignored line, text, an ignored line.
pub fn parse_note(stem: &Vec<String>) -> (r: core::result::Result<(String, Note), ExportError>)
    requires
        stem@.len() == 5,
    ensures
        match note_of_record(lines_view(stem@)) {
            Some((title, note)) => r matches Ok(p) && p.0@ == title && p.1@ == note,
            None => r matches Err(ExportError::NoteRange(line)) && line@ == stem@[1]@,
        },
{
    let line = stem[1].clone();
    match try_parse_range(line.as_str()) {
        Some(pos) => {
            let name = stem[0].clone();
            let text = stem[3].clone();
            Ok((name, Note { pos, text }))
        },
        None => Err(ExportError::NoteRange(line)),
    }
}

/// Puts a note into a book's list: in place of the note with the same start,
/// else at the end.
pub fn upsert_note(notes: &mut Vec<Note>, note: Note)
    ensures
        notes_view(final(notes)@) == upsert(notes_view(old(notes)@), note@),
{
    let ghost before = notes_view(notes@);
    let n = notes.len();
    let mut i: usize = 0;
    while i < n
        invariant
            i <= n,
            n == notes@.len(),
            notes_view(notes@) == before,
            before == notes_view(old(notes)@),
            find_start(before, note@.start, 0) == find_start(before, note@.start, i as int),
        decreases n - i,
    {
        proof {
            assert(before[i as int] == notes@[i as int]@);
        }
        if notes[i].pos.start == note.pos.start {
            notes.set(i, note);
            proof {
                assert(notes_view(notes@) =~= before.update(i as int, note@));
            }
            return;
        }
        i += 1;
    }
    notes.push(note);
    proof {
        assert(notes_view(notes@) =~= before.push(note@));
    }
}

/// Files a note under its title.
pub fn add_note(books: &mut Vec<Book>, name: String, note: Note)
    ensures
        books_view(final(books)@) == add_note_spec(books_view(old(books)@), name@, note@),
{
    let ghost before = books_view(books@);
    let n = books.len();
    let mut i: usize = 0;
    while i < n
        invariant
            i <= n,
            n == books@.len(),
            books_view(books@) == before,
            before == books_view(old(books)@),
            find_title(before, name@, 0) == find_title(before, name@, i as int),
        decreases n - i,
    {
        proof {
            assert(before[i as int] == books@[i as int]@);
        }
        if books[i].title == name {
            upsert_note(&mut books[i].notes, note);
            proof {
                assert(books_view(books@) =~= add_note_spec(before, name@, note@));
            }
            return;
        }
        i += 1;
    }
    let mut notes: Vec<Note> = Vec::new();
    let ghost nv = note@;
    notes.push(note);
    proof {
        assert(notes_view(notes@) =~= seq![nv]);
    }
    books.push(Book { title: name, notes });
    proof {
        assert(books_view(books@) =~= add_note_spec(before, name@, nv));
    }
}


/// Renders one book's notes as a Markdown list.
pub fn render_notes(notes: &Vec<Note>) -> (s: String)
    ensures
        s@ == render(notes_view(notes@)),
{
    let mut s = String::new();
    let n = notes.len();
    let mut j: usize = 0;
    while j < n
        invariant
            j <= n,
            n == notes@.len(),
            s@ == render(notes_view(notes@).take(j as int)),
        decreases n - j,
    {
        proof {
            reveal_strlit("- ");
            reveal_strlit("\n\n");
            assert("- "@ =~= bullet());
            assert("\n\n"@ =~= paragraph_end());
            let next = notes_view(notes@).take(j + 1);
            assert(next.drop_last() =~= notes_view(notes@).take(j as int));
            assert(next.last().text == notes@[j as int].text@);
        }
        s.append("- ");
        s.append(notes[j].text.as_str());
        s.append("\n\n");
        j += 1;
    }
    proof {
        assert(notes_view(notes@).take(n as int) =~= notes_view(notes@));
    }
    s
}

/// Renders every book: each title with its notes as one text.
pub fn flat_notes(books: &Vec<Book>) -> (r: core::result::Result<Vec<(String, String)>, ExportError>)
    ensures
        r matches Ok(pairs) && pairs_view(pairs@) == rendered(books_view(books@)),
{
    let mut res: Vec<(String, String)> = Vec::new();
    let n = books.len();
    let mut i: usize = 0;
    while i < n
        invariant
            i <= n,
            n == books@.len(),
            pairs_view(res@) == rendered(books_view(books@)).take(i as int),
        decreases n - i,
    {
        let ghost before = pairs_view(res@);
        let text = render_notes(&books[i].notes);
        res.push((books[i].title.clone(), text));
        proof {
            assert(pairs_view(res@) =~= before.push((books@[i as int].title@, text@)));
            assert(pairs_view(res@) =~= rendered(books_view(books@)).take(i + 1));
        }
        i += 1;
    }
    proof {
        assert(rendered(books_view(books@)).take(n as int) =~= rendered(books_view(books@)));
    }
    Ok(res)
}

/// Once a record was refused, later records change nothing.
pub proof fn lemma_collect_stops(lines: Seq<Seq<char>>, k: nat, m: nat)
    requires
        k <= m,
        collect(lines, k) is Err,
    ensures
        collect(lines, m) == collect(lines, k),
    decreases m,
{
    if k < m {
        lemma_collect_stops(lines, k, (m - 1) as nat);
    }
}

/// Groups the lines in fives and files each record's note under its title.
/// The first position line that gives no range ends the work.
pub fn collect_books(lines: &Vec<String>) -> (r: core::result::Result<Vec<Book>, ExportError>)
    ensures
        match collect(lines_view(lines@), (lines@.len() / 5) as nat) {
            Ok(books) => r matches Ok(found) && books_view(found@) == books,
            Err(line) => r matches Err(ExportError::NoteRange(refused)) && refused@ == line,
        },
        r matches Ok(found) ==> books_wf(books_view(found@)),
{
    proof {
        lemma_collect_wf(lines_view(lines@), (lines@.len() / 5) as nat);
    }
    let mut books: Vec<Book> = Vec::new();
    let len = lines.len();
    let n = len / 5;
    let mut k: usize = 0;
    proof {
        assert(books_view(books@) =~= Seq::<BookSpec>::empty());
    }
    while k < n
        invariant
            k <= n,
            n == lines@.len() / 5,
            len == lines@.len(),
            5 * n <= len,
            collect(lines_view(lines@), k as nat) == Ok::<Seq<BookSpec>, Seq<char>>(books_view(books@)),
        decreases n - k,
    {
        let mut stem: Vec<String> = Vec::new();
        stem.push(lines[5 * k].clone());
        stem.push(lines[5 * k + 1].clone());
        stem.push(lines[5 * k + 2].clone());
        stem.push(lines[5 * k + 3].clone());
        stem.push(lines[5 * k + 4].clone());
        proof {
            assert(lines_view(stem@) =~= record_at(lines_view(lines@), k as int));
        }
        match parse_note(&stem) {
            Ok(p) => {
                add_note(&mut books, p.0, p.1);
            },
            Err(e) => {
                proof {
                    lemma_collect_stops(lines_view(lines@), (k + 1) as nat, n as nat);
                }
                return Err(e);
            },
        }
        k += 1;
    }
    Ok(books)
}

/// Parses the lines of a clippings file.
pub fn parse_lines(lines: &Vec<String>) -> (r: core::result::Result<Vec<(String, String)>, ExportError>)
    ensures
        match parse_spec(lines_view(lines@)) {
            Ok(pairs) => r matches Ok(found) && pairs_view(found@) == pairs,
            Err(line) => r matches Err(ExportError::NoteRange(refused)) && refused@ == line,
        },
        r matches Ok(found) ==> distinct_keys(pairs_view(found@)),
{
    proof {
        lemma_parse_is_mapping(lines_view(lines@));
    }
    match collect_books(lines) {
        Ok(books) => flat_notes(&books),
        Err(e) => Err(e),
    }
}

/// The index of the first line feed; the length where there is none.
pub open spec fn newline_index(s: Seq<char>) -> int
    decreases s.len(),
{
    if s.len() == 0 {
        0
    } else if s[0] == '\n' {
        0
    } else {
        1 + newline_index(s.skip(1))
    }
}

pub open spec fn without_cr(line: Seq<char>) -> Seq<char> {
    if line.len() > 0 && line.last() == '\r' {
        line.drop_last()
    } else {
        line
    }
}

/// The lines of a text. A line ends at a line feed, and a carriage return
/// just before that line feed belongs to the line ending. What follows the
/// last line feed is a line too unless it is empty, and keeps a carriage
/// return that it ends in.
pub open spec fn lines_of(s: Seq<char>) -> Seq<Seq<char>>
    decreases s.len(),
{
    if s.len() == 0 {
        Seq::empty()
    } else {
        let i = newline_index(s);
        if 0 <= i < s.len() {
            seq![without_cr(s.take(i))] + lines_of(s.skip(i + 1))
        } else {
            seq![s]
        }
    }
}

/// Calls `str::lines` and copies each line. Believed, not proved: the lines
/// are those of `lines_of`, as the documentation of `str::lines` describes
/// them.
#[verifier::external_body]
fn text_lines(contents: &str) -> (r: Vec<String>)
    ensures
        lines_view(r@) == lines_of(contents@),
{
    contents.lines().map(|line| line.to_string()).collect()
}

/// Parses the contents of a clippings file: for each book title, in the
/// order of first occurrence, the rendered notes.
pub fn parse_kindle_notes(contents: &str) -> (r: core::result::Result<Vec<(String, String)>, ExportError>)
    ensures
        match parse_spec(lines_of(contents@)) {
            Ok(pairs) => r matches Ok(found) && pairs_view(found@) == pairs,
            Err(line) => r matches Err(ExportError::NoteRange(refused)) && refused@ == line,
        },
        r matches Ok(found) ==> distinct_keys(pairs_view(found@)),
{
    let lines = text_lines(contents);
    parse_lines(&lines)
}


/// One note rendered alone.
pub open spec fn item(text: Seq<char>) -> Seq<char> {
    bullet() + text + paragraph_end()
}

/// A list of one note renders as that note's item.
pub proof fn lemma_render_single(a: NoteSpec)
    ensures
        render(seq![a]) == item(a.text),
{
    reveal_with_fuel(render, 2);
    assert(seq![a].drop_last() =~= Seq::<NoteSpec>::empty());
    assert(render(seq![a]) =~= item(a.text));
}

/// A list of two notes renders as their items, one after the other.
pub proof fn lemma_render_pair(a: NoteSpec, b: NoteSpec)
    ensures
        render(seq![a, b]) == item(a.text) + item(b.text),
{
    lemma_render_single(a);
    assert(seq![a, b].drop_last() =~= seq![a]);
    assert(render(seq![a, b]) =~= item(a.text) + item(b.text));
}

proof fn lemma_first_record(lines: Seq<Seq<char>>)
    requires
        5 <= lines.len(),
        range_of(lines[1]) is Some,
    ensures
        collect(lines, 1) == Ok::<Seq<BookSpec>, Seq<char>>(
            seq![BookSpec { title: lines[0], notes: seq![note_of_record(record_at(lines, 0)).unwrap().1] }],
        ),
        note_of_record(record_at(lines, 0)).unwrap().1.text == lines[3],
        note_of_record(record_at(lines, 0)).unwrap().1.start == range_of(lines[1]).unwrap().0,
{
    reveal_with_fuel(collect, 2);
    let rec = record_at(lines, 0);
    assert(rec[0] == lines[0] && rec[1] == lines[1] && rec[3] == lines[3]);
    let note = note_of_record(rec).unwrap().1;
    let none = Seq::<BookSpec>::empty();
    assert(find_title(none, lines[0], 0) == 0);
    assert(add_note_spec(none, lines[0], note) =~= seq![BookSpec { title: lines[0], notes: seq![note] }]);
}

/// A file of one record gives one book, whose text is the record's note as
/// a single list item.
pub proof fn lemma_single_record(lines: Seq<Seq<char>>)
    requires
        5 <= lines.len() < 10,
        range_of(lines[1]) is Some,
    ensures
        parse_spec(lines) == Ok::<Seq<(Seq<char>, Seq<char>)>, Seq<char>>(seq![(lines[0], item(lines[3]))]),
{
    lemma_first_record(lines);
    let note = note_of_record(record_at(lines, 0)).unwrap().1;
    lemma_render_single(note);
    let books = seq![BookSpec { title: lines[0], notes: seq![note] }];
    assert(rendered(books) =~= seq![(lines[0], item(lines[3]))]);
}

/// Of two records with one title whose ranges start at the same place, the
/// later takes the place of the earlier: the book holds one note, with the
/// second text.
pub proof fn lemma_same_start_replaces(lines: Seq<Seq<char>>)
    requires
        10 <= lines.len() < 15,
        lines[0] == lines[5],
        range_of(lines[1]) is Some,
        range_of(lines[6]) is Some,
        range_of(lines[1]).unwrap().0 == range_of(lines[6]).unwrap().0,
    ensures
        parse_spec(lines) == Ok::<Seq<(Seq<char>, Seq<char>)>, Seq<char>>(seq![(lines[0], item(lines[8]))]),
{
    lemma_first_record(lines);
    reveal_with_fuel(collect, 1);
    reveal_with_fuel(find_title, 2);
    reveal_with_fuel(find_start, 2);
    let first = note_of_record(record_at(lines, 0)).unwrap().1;
    let rec = record_at(lines, 1);
    assert(rec[0] == lines[5] && rec[1] == lines[6] && rec[3] == lines[8]);
    let second = note_of_record(rec).unwrap().1;
    let one = seq![BookSpec { title: lines[0], notes: seq![first] }];
    assert(find_title(one, lines[5], 0) == 0);
    assert(find_start(seq![first], second.start, 0) == 0);
    assert(upsert(seq![first], second) =~= seq![second]);
    let books = seq![BookSpec { title: lines[0], notes: seq![second] }];
    assert(add_note_spec(one, lines[5], second) =~= books);
    lemma_render_single(second);
    assert(rendered(books) =~= seq![(lines[0], item(lines[8]))]);
}

/// Of two records with one title whose ranges start at different places,
/// both notes stay, the earlier first.
pub proof fn lemma_distinct_starts_in_order(lines: Seq<Seq<char>>)
    requires
        10 <= lines.len() < 15,
        lines[0] == lines[5],
        range_of(lines[1]) is Some,
        range_of(lines[6]) is Some,
        range_of(lines[1]).unwrap().0 != range_of(lines[6]).unwrap().0,
    ensures
        parse_spec(lines) == Ok::<Seq<(Seq<char>, Seq<char>)>, Seq<char>>(
            seq![(lines[0], item(lines[3]) + item(lines[8]))],
        ),
{
    lemma_first_record(lines);
    reveal_with_fuel(collect, 1);
    reveal_with_fuel(find_title, 2);
    reveal_with_fuel(find_start, 2);
    let first = note_of_record(record_at(lines, 0)).unwrap().1;
    let rec = record_at(lines, 1);
    assert(rec[0] == lines[5] && rec[1] == lines[6] && rec[3] == lines[8]);
    let second = note_of_record(rec).unwrap().1;
    let one = seq![BookSpec { title: lines[0], notes: seq![first] }];
    assert(find_title(one, lines[5], 0) == 0);
    assert(find_start(seq![first], second.start, 0) == 1);
    assert(upsert(seq![first], second) =~= seq![first, second]);
    let books = seq![BookSpec { title: lines[0], notes: seq![first, second] }];
    assert(add_note_spec(one, lines[5], second) =~= books);
    lemma_render_pair(first, second);
    assert(rendered(books) =~= seq![(lines[0], item(lines[3]) + item(lines[8]))]);
}

/// A record whose position line gives no range makes the whole parse fail,
/// wherever it stands.
pub proof fn lemma_refused_record_fails(lines: Seq<Seq<char>>, k: nat)
    requires
        k < lines.len() / 5,
        range_of(lines[5 * k as int + 1]) is None,
    ensures
        parse_spec(lines) is Err,
{
    let rec = record_at(lines, k as int);
    assert(rec[1] == lines[5 * k as int + 1]);
    assert(collect(lines, k + 1) is Err);
    lemma_collect_stops(lines, k + 1, (lines.len() / 5) as nat);
}

/// The first record whose position line gives no range is the one that the
/// failure names.
pub proof fn lemma_first_refused_record(lines: Seq<Seq<char>>, k: nat)
    requires
        k < lines.len() / 5,
        forall|j: int| 0 <= j < k ==> range_of(#[trigger] lines[5 * j + 1]) is Some,
        range_of(lines[5 * k as int + 1]) is None,
    ensures
        parse_spec(lines) == Err::<Seq<(Seq<char>, Seq<char>)>, Seq<char>>(lines[5 * k as int + 1]),
{
    lemma_collect_ok(lines, k);
    assert(record_at(lines, k as int)[1] == lines[5 * k as int + 1]);
    lemma_collect_stops(lines, k + 1, (lines.len() / 5) as nat);
}

proof fn lemma_collect_ok(lines: Seq<Seq<char>>, k: nat)
    requires
        k <= lines.len() / 5,
        forall|j: int| 0 <= j < k ==> range_of(#[trigger] lines[5 * j + 1]) is Some,
    ensures
        collect(lines, k) is Ok,
    decreases k,
{
    if k > 0 {
        lemma_collect_ok(lines, (k - 1) as nat);
        assert(record_at(lines, k - 1)[1] == lines[5 * (k - 1) + 1]);
    }
}

proof fn lemma_collect_prefix(lines: Seq<Seq<char>>, m: int, k: nat)
    requires
        5 * k <= m <= lines.len(),
    ensures
        collect(lines.take(m), k) == collect(lines, k),
    decreases k,
{
    if k > 0 {
        lemma_collect_prefix(lines, m, (k - 1) as nat);
        assert(record_at(lines.take(m), k - 1) =~= record_at(lines, k - 1));
    }
}

/// Lines after the last full group of five change nothing.
pub proof fn lemma_trailing_lines_dropped(lines: Seq<Seq<char>>)
    ensures
        parse_spec(lines) == parse_spec(lines.take(5 * (lines.len() as int / 5))),
{
    let k = (lines.len() / 5) as nat;
    lemma_collect_prefix(lines, 5 * k as int, k);
}

/// No two notes of a list start at the same place.
pub open spec fn distinct_starts(notes: Seq<NoteSpec>) -> bool {
    forall|i: int, j: int| 0 <= i < j < notes.len() ==> notes[i].start != notes[j].start
}

proof fn lemma_find_start(notes: Seq<NoteSpec>, start: int, from: int)
    requires
        0 <= from <= notes.len(),
    ensures
        from <= find_start(notes, start, from) <= notes.len(),
        find_start(notes, start, from) < notes.len() ==> notes[find_start(notes, start, from)].start == start,
        forall|j: int| from <= j < find_start(notes, start, from) ==> notes[j].start != start,
    decreases notes.len() - from,
{
    if from < notes.len() && notes[from].start != start {
        lemma_find_start(notes, start, from + 1);
    }
}

proof fn lemma_find_start_is(notes: Seq<NoteSpec>, start: int, i: int)
    requires
        0 <= i <= notes.len(),
        forall|j: int| 0 <= j < i ==> notes[j].start != start,
        i < notes.len() ==> notes[i].start == start,
    ensures
        find_start(notes, start, 0) == i,
{
    lemma_find_start(notes, start, 0);
}

/// Putting a note into a list keeps the starts distinct, and a second time
/// changes nothing.
pub proof fn lemma_upsert_keeps_distinct(notes: Seq<NoteSpec>, note: NoteSpec)
    requires
        distinct_starts(notes),
    ensures
        distinct_starts(upsert(notes, note)),
        upsert(notes, note).contains(note),
        upsert(upsert(notes, note), note) == upsert(notes, note),
{
    lemma_find_start(notes, note.start, 0);
    let i = find_start(notes, note.start, 0);
    let after = upsert(notes, note);
    assert(after[i] == note);
    lemma_find_start_is(after, note.start, i);
    assert(upsert(after, note) =~= after);
}

/// The later of two notes that start at the same place wins, whatever the
/// list held before: the result is as if the earlier had never come, and no
/// longer than after the earlier.
pub proof fn lemma_upsert_same_start(notes: Seq<NoteSpec>, a: NoteSpec, b: NoteSpec)
    requires
        a.start == b.start,
    ensures
        upsert(upsert(notes, a), b) == upsert(notes, b),
        upsert(upsert(notes, a), b).len() == upsert(notes, a).len(),
{
    lemma_find_start(notes, a.start, 0);
    let i = find_start(notes, a.start, 0);
    let after = upsert(notes, a);
    assert(after[i] == a);
    lemma_find_start_is(after, b.start, i);
    assert(upsert(after, b) =~= upsert(notes, b));
}

/// Two notes that start at different places, neither present before, both
/// go to the end, the earlier first.
pub proof fn lemma_upsert_new_starts(notes: Seq<NoteSpec>, a: NoteSpec, b: NoteSpec)
    requires
        a.start != b.start,
        forall|j: int| 0 <= j < notes.len() ==> notes[j].start != a.start && notes[j].start != b.start,
    ensures
        upsert(upsert(notes, a), b) == notes.push(a).push(b),
{
    lemma_find_start_is(notes, a.start, notes.len() as int);
    let after = notes.push(a);
    lemma_find_start_is(after, b.start, after.len() as int);
}

/// No two books have one title.
pub open spec fn distinct_titles(books: Seq<BookSpec>) -> bool {
    forall|i: int, j: int| 0 <= i < j < books.len() ==> books[i].title != books[j].title
}

/// The shape that parsing keeps: one book for a title, and in a book one
/// note for a start.
pub open spec fn books_wf(books: Seq<BookSpec>) -> bool {
    &&& distinct_titles(books)
    &&& forall|i: int| 0 <= i < books.len() ==> distinct_starts(#[trigger] books[i].notes)
}

proof fn lemma_find_title(books: Seq<BookSpec>, title: Seq<char>, from: int)
    requires
        0 <= from <= books.len(),
    ensures
        from <= find_title(books, title, from) <= books.len(),
        find_title(books, title, from) < books.len() ==> books[find_title(books, title, from)].title == title,
        forall|j: int| from <= j < find_title(books, title, from) ==> books[j].title != title,
    decreases books.len() - from,
{
    if from < books.len() && books[from].title != title {
        lemma_find_title(books, title, from + 1);
    }
}

/// Filing a note keeps the shape.
pub proof fn lemma_add_note_keeps_wf(books: Seq<BookSpec>, title: Seq<char>, note: NoteSpec)
    requires
        books_wf(books),
    ensures
        books_wf(add_note_spec(books, title, note)),
{
    lemma_find_title(books, title, 0);
    let i = find_title(books, title, 0);
    let after = add_note_spec(books, title, note);
    if i < books.len() {
        lemma_upsert_keeps_distinct(books[i].notes, note);
        assert forall|k: int| 0 <= k < after.len() implies after[k].title == books[k].title by {}
        assert forall|k: int| 0 <= k < after.len() implies distinct_starts(#[trigger] after[k].notes) by {
            if k != i {
                assert(after[k].notes == books[k].notes);
            }
        }
    } else {
        assert forall|k: int| 0 <= k < after.len() implies distinct_starts(#[trigger] after[k].notes) by {
            if k < books.len() {
                assert(after[k].notes == books[k].notes);
            }
        }
    }
}

/// Whatever the lines, the books that come of them have that shape.
pub proof fn lemma_collect_wf(lines: Seq<Seq<char>>, k: nat)
    ensures
        collect(lines, k) matches Ok(books) ==> books_wf(books),
    decreases k,
{
    if k > 0 {
        lemma_collect_wf(lines, (k - 1) as nat);
        if let Ok(books) = collect(lines, (k - 1) as nat) {
            if let Some((title, note)) = note_of_record(record_at(lines, k - 1)) {
                lemma_add_note_keeps_wf(books, title, note);
            }
        }
    }
}

/// No title occurs twice among the pairs.
pub open spec fn distinct_keys(pairs: Seq<(Seq<char>, Seq<char>)>) -> bool {
    forall|i: int, j: int| 0 <= i < j < pairs.len() ==> pairs[i].0 != pairs[j].0
}

/// What parsing gives is a mapping: each title has one text.
pub proof fn lemma_parse_is_mapping(lines: Seq<Seq<char>>)
    ensures
        parse_spec(lines) matches Ok(pairs) ==> distinct_keys(pairs),
{
    lemma_collect_wf(lines, (lines.len() / 5) as nat);
}

} // verus!
