use vstd::prelude::*;
use vstd::string::StrSliceExecFns;
use vstd::string::StringExecFns;
use crate::camera::{digits_between, digits_exec, is_digit, is_digit_exec, opt_view};
use crate::pathname::{base_name, base_name_of, chars_of, spells, spells_exec};

verus! {

/// The metadata reader's error, carried through opaque.
#[verifier::external_type_specification]
#[verifier::external_body]
pub struct ExExifError(exif::Error);

/// What an image's metadata says of its original capture time: `None` when
/// the bytes hold no metadata container that can be parsed, `Some(None)` when
/// the container has no original date and time, and otherwise the field's
/// text as the metadata reader renders it.
pub uninterp spec fn capture_text(b: Seq<u8>) -> Option<Option<Seq<char>>>;

/// Relies on `exif::Reader::read_from_container` to parse the metadata
/// container of the image bytes, on `Exif::get_field` to look up
/// `DateTimeOriginal` in the primary image, and on `Field::display_value` to
/// render it as text.
#[verifier::external_body]
fn read_capture_text(bytes: &[u8]) -> (r: Result<Option<String>, exif::Error>)
    ensures
        r is Ok <==> capture_text(bytes@) is Some,
        r matches Ok(o) ==> opt_view(o) == capture_text(bytes@)->0,
{
    let exif = exif::Reader::new().read_from_container(&mut std::io::Cursor::new(bytes))?;
    match exif.get_field(exif::Tag::DateTimeOriginal, exif::In::PRIMARY) {
        Some(field) => Ok(Some(field.display_value().to_string())),
        None => Ok(None),
    }
}

/// Failure to date a file by its metadata.
#[derive(Debug, PartialEq, Eq, Structural)]
pub enum MediaError {
    /// The file holds no metadata container that can be parsed.
    UnreadableMetadata,
}

/// A Unicode white-space character.
pub open spec fn is_space(c: char) -> bool {
    ('\u{9}' <= c && c <= '\u{d}') || c == ' ' || c == '\u{85}' || c == '\u{a0}' || c
        == '\u{1680}' || ('\u{2000}' <= c && c <= '\u{200a}') || c == '\u{2028}' || c
        == '\u{2029}' || c == '\u{202f}' || c == '\u{205f}' || c == '\u{3000}'
}

/// A character of the time that follows a date.
pub open spec fn is_time_char(c: char) -> bool {
    is_digit(c) || c == ':'
}

/// At position `i` of `t` stands a date `YYYY-MM-DD`, then `k` white-space
/// characters (at least one), then eight characters each a digit or `:`.
pub open spec fn date_time_at(t: Seq<char>, i: int, k: int) -> bool {
    &&& 0 <= i
    &&& 1 <= k
    &&& i + 18 + k <= t.len()
    &&& digits_between(t, i, i + 4)
    &&& t[i + 4] == '-'
    &&& digits_between(t, i + 5, i + 7)
    &&& t[i + 7] == '-'
    &&& digits_between(t, i + 8, i + 10)
    &&& forall|m: int| i + 10 <= m < i + 10 + k ==> is_space(#[trigger] t[m])
    &&& forall|m: int| i + 10 + k <= m < i + 18 + k ==> is_time_char(#[trigger] t[m])
}

pub open spec fn date_time_starts(t: Seq<char>, i: int) -> bool {
    exists|k: int| date_time_at(t, i, k)
}

pub open spec fn first_date_time(t: Seq<char>, i: int) -> bool {
    date_time_starts(t, i) && forall|j: int| 0 <= j < i ==> !date_time_starts(t, j)
}

/// `year/month/day/<base name of p>` for the date at position `i` of `t`.
pub open spec fn date_fragment(t: Seq<char>, i: int, p: Seq<char>) -> Seq<char> {
    t.subrange(i, i + 4) + seq!['/'] + t.subrange(i + 5, i + 7) + seq!['/'] + t.subrange(
        i + 8,
        i + 10,
    ) + seq!['/'] + base_name(p)
}

/// Where the file at `p` goes by the capture text `t` of its metadata: after
/// the first date and time found in `t`; nothing when `t` holds none.
pub open spec fn text_destination(p: Seq<char>, t: Seq<char>) -> Option<Seq<char>> {
    if exists|i: int| date_time_starts(t, i) {
        Some(date_fragment(t, choose|i: int| first_date_time(t, i), p))
    } else {
        None
    }
}

/// The path ends with `.jpg` or `.png`, in any letter case.
pub open spec fn is_photo_path(p: Seq<char>) -> bool {
    p.len() >= 4 && (spells(p.subrange(p.len() - 4, p.len() as int), seq!['.', 'j', 'p', 'g'])
        || spells(p.subrange(p.len() - 4, p.len() as int), seq!['.', 'p', 'n', 'g']))
}

/// Where the file at `p` goes by its metadata, given what the metadata
/// reader found in it (see `capture_text`); `None` on the error side when the
/// metadata cannot be read at all.
pub open spec fn metadata_destination(p: Seq<char>, found: Option<Option<Seq<char>>>) -> Option<
    Option<Seq<char>>,
> {
    match found {
        None => None,
        Some(None) => Some(None),
        Some(Some(t)) => Some(text_destination(p, t)),
    }
}

fn is_space_exec(c: char) -> (r: bool)
    ensures
        r == is_space(c),
{
    ('\u{9}' <= c && c <= '\u{d}') || c == ' ' || c == '\u{85}' || c == '\u{a0}' || c
        == '\u{1680}' || ('\u{2000}' <= c && c <= '\u{200a}') || c == '\u{2028}' || c
        == '\u{2029}' || c == '\u{202f}' || c == '\u{205f}' || c == '\u{3000}'
}

/// After a date at `i`, white space runs up to `j`: the time can only start there.
proof fn lemma_space_run(t: Seq<char>, i: int, j: int)
    requires
        i + 10 <= j <= t.len(),
        forall|m: int| i + 10 <= m < j ==> is_space(#[trigger] t[m]),
        j == t.len() || !is_space(t[j]),
    ensures
        forall|k: int| date_time_at(t, i, k) ==> k == j - (i + 10),
{
    assert forall|k: int| date_time_at(t, i, k) implies k == j - (i + 10) by {
        if k < j - (i + 10) {
            assert(is_space(t[i + 10 + k]));
            assert(is_time_char(t[i + 10 + k]));
        } else if k > j - (i + 10) {
            assert(is_space(t[j]));
        }
    }
}

/// Whether a date and time starts at position `i` of `t`.
fn date_time_starts_exec(t: &Vec<char>, i: usize) -> (r: bool)
    requires
        i <= t.len(),
    ensures
        r == date_time_starts(t@, i as int),
{
    if t.len() - i < 19 {
        return false;
    }
    if !(digits_exec(t, i, i + 4) && t[i + 4] == '-' && digits_exec(t, i + 5, i + 7) && t[i + 7]
        == '-' && digits_exec(t, i + 8, i + 10)) {
        return false;
    }
    // the run of white space after the date
    let mut j: usize = i + 10;
    while j < t.len() && is_space_exec(t[j])
        invariant
            i + 10 <= j <= t.len(),
            forall|m: int| i + 10 <= m < j ==> is_space(#[trigger] t@[m]),
        decreases t.len() - j,
    {
        j = j + 1;
    }
    proof {
        lemma_space_run(t@, i as int, j as int);
    }
    if j == i + 10 || t.len() - j < 8 {
        return false;
    }
    let mut m: usize = j;
    while m < j + 8
        invariant
            i + 10 < j <= m <= j + 8 <= t.len(),
            forall|n: int| j <= n < m ==> is_time_char(#[trigger] t@[n]),
            forall|k: int| date_time_at(t@, i as int, k) ==> k == j - (i + 10),
        decreases j + 8 - m,
    {
        if !(is_digit_exec(t[m]) || t[m] == ':') {
            assert(!is_time_char(t@[m as int]));
            assert(!date_time_at(t@, i as int, j - (i + 10)));
            return false;
        }
        m = m + 1;
    }
    assert(date_time_at(t@, i as int, j - (i + 10)));
    true
}

/// Position of the first date and time in `t`, if any.
fn find_date_time(t: &Vec<char>) -> (r: Option<usize>)
    ensures
        match r {
            Some(i) => first_date_time(t@, i as int) && i + 19 <= t.len(),
            None => forall|j: int| !date_time_starts(t@, j),
        },
{
    let mut i: usize = 0;
    while i < t.len()
        invariant
            i <= t.len(),
            forall|j: int| 0 <= j < i ==> !date_time_starts(t@, j),
        decreases t.len() - i,
    {
        if date_time_starts_exec(t, i) {
            return Some(i);
        }
        i = i + 1;
    }
    assert forall|j: int| !date_time_starts(t@, j) by {
        if j >= t.len() && date_time_starts(t@, j) {
            let k = choose|k: int| date_time_at(t@, j, k);
        }
    }
    None
}

/// Where the file at `filename` goes by the capture text of its metadata:
/// `YYYY/MM/DD/<base name>` for the first `YYYY-MM-DD` in `text` that is
/// followed by white space and eight digits or colons; `None` when `text`
/// holds no such date.
pub fn exif_destination(filename: &str, text: &str) -> (r: Option<String>)
    ensures
        opt_view(r) == text_destination(filename@, text@),
{
    let t = chars_of(text);
    match find_date_time(&t) {
        None => None,
        Some(i) => {
            proof {
                let j = choose|j: int| first_date_time(t@, j);
                assert(j == i as int);
            }
            let mut r = text.substring_char(i, i + 4).to_string();
            r.append("/");
            r.append(text.substring_char(i + 5, i + 7));
            r.append("/");
            r.append(text.substring_char(i + 8, i + 10));
            r.append("/");
            let name = base_name_of(filename);
            r.append(name.as_str());
            proof {
                reveal_strlit("/");
            }
            assert(r@ =~= date_fragment(t@, i as int, filename@));
            Some(r)
        },
    }
}

/// What a metadata lookup came to: `None` for an error, else the
/// destination found, if any.
pub open spec fn lookup_view(r: Result<Option<String>, MediaError>) -> Option<Option<Seq<char>>> {
    match r {
        Ok(o) => Some(opt_view(o)),
        Err(_) => None,
    }
}

/// Whether `path` ends with `.jpg` or `.png`, in any letter case.
pub fn is_photo_file(path: &str) -> (r: bool)
    ensures
        r == is_photo_path(path@),
{
    let s = chars_of(path);
    if s.len() < 4 {
        return false;
    }
    let jpg = spells_exec(&s, s.len() - 4, s.len(), &['.', 'j', 'p', 'g']);
    let png = spells_exec(&s, s.len() - 4, s.len(), &['.', 'p', 'n', 'g']);
    proof {
        assert(['.', 'j', 'p', 'g']@ == seq!['.', 'j', 'p', 'g']);
        assert(['.', 'p', 'n', 'g']@ == seq!['.', 'p', 'n', 'g']);
    }
    jpg || png
}

/// Where the file at `filename`, whose bytes are `contents`, goes by the
/// capture date in its metadata. Only a name ending in `.jpg` or `.png` (any
/// letter case) is looked at: any other gives `Ok(None)`. An unreadable
/// metadata container gives `UnreadableMetadata`; a container without an
/// original capture date, or one whose text holds no date, gives `Ok(None)`.
pub fn read_jpg_exif(filename: &str, contents: &[u8]) -> (r: Result<Option<String>, MediaError>)
    ensures
        lookup_view(r) == if is_photo_path(filename@) {
            metadata_destination(filename@, capture_text(contents@))
        } else {
            Some(None)
        },
{
    if !is_photo_file(filename) {
        return Ok(None);
    }
    match read_capture_text(contents) {
        Err(_) => Err(MediaError::UnreadableMetadata),
        Ok(None) => Ok(None),
        Ok(Some(text)) => Ok(exif_destination(filename, text.as_str())),
    }
}

} // verus!
