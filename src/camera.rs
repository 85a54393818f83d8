use vstd::prelude::*;
use vstd::string::StrSliceExecFns;
use vstd::string::StringExecFns;
use crate::pathname::chars_of;

verus! {

pub open spec fn is_digit(c: char) -> bool {
    '0' <= c && c <= '9'
}

/// `s[lo..hi]` holds ASCII digits only.
pub open spec fn digits_between(s: Seq<char>, lo: int, hi: int) -> bool {
    forall|k: int| lo <= k < hi ==> is_digit(#[trigger] s[k])
}

/// Length of a camera-style name: `IMG_` or `VID_`, eight digits, `_`, six
/// digits, `.`, and `jpg` or `mp4`.
pub const CAMERA_NAME_LEN: usize = 23;

/// A camera-style name `(IMG|VID)_YYYYMMDD_HHMMSS.(jpg|mp4)` starts at
/// position `i` of `s`. Prefix and extension are matched in this letter
/// case only.
pub open spec fn camera_name_at(s: Seq<char>, i: int) -> bool {
    &&& 0 <= i
    &&& i + 23 <= s.len()
    &&& s.subrange(i, i + 4) == seq!['I', 'M', 'G', '_'] || s.subrange(i, i + 4) == seq![
        'V',
        'I',
        'D',
        '_',
    ]
    &&& digits_between(s, i + 4, i + 12)
    &&& s[i + 12] == '_'
    &&& digits_between(s, i + 13, i + 19)
    &&& s[i + 19] == '.'
    &&& s.subrange(i + 20, i + 23) == seq!['j', 'p', 'g'] || s.subrange(i + 20, i + 23) == seq![
        'm',
        'p',
        '4',
    ]
}

/// `i` is the first position of `s` at which a camera-style name starts.
pub open spec fn first_camera_name(s: Seq<char>, i: int) -> bool {
    camera_name_at(s, i) && forall|j: int| 0 <= j < i ==> !camera_name_at(s, j)
}

/// `year/month/day/name` for the camera-style name at position `i`.
pub open spec fn camera_fragment(s: Seq<char>, i: int) -> Seq<char> {
    s.subrange(i + 4, i + 8) + seq!['/'] + s.subrange(i + 8, i + 10) + seq!['/'] + s.subrange(
        i + 10,
        i + 12,
    ) + seq!['/'] + s.subrange(i, i + 23)
}

/// Where a file goes by its name: after the date of the first camera-style
/// name found anywhere in it; nothing when it holds none.
pub open spec fn camera_destination(s: Seq<char>) -> Option<Seq<char>> {
    if exists|i: int| camera_name_at(s, i) {
        Some(camera_fragment(s, choose|i: int| first_camera_name(s, i)))
    } else {
        None
    }
}

pub open spec fn opt_view(o: Option<String>) -> Option<Seq<char>> {
    match o {
        Some(s) => Some(s@),
        None => None,
    }
}

pub(crate) fn is_digit_exec(c: char) -> (r: bool)
    ensures
        r == is_digit(c),
{
    '0' <= c && c <= '9'
}

/// Whether `s[lo..hi]` holds ASCII digits only.
pub(crate) fn digits_exec(s: &Vec<char>, lo: usize, hi: usize) -> (r: bool)
    requires
        lo <= hi <= s.len(),
    ensures
        r == digits_between(s@, lo as int, hi as int),
{
    let mut k: usize = lo;
    while k < hi
        invariant
            lo <= k <= hi <= s.len(),
            digits_between(s@, lo as int, k as int),
        decreases hi - k,
    {
        if !is_digit_exec(s[k]) {
            return false;
        }
        k = k + 1;
    }
    true
}

fn camera_name_at_exec(s: &Vec<char>, i: usize) -> (r: bool)
    requires
        i + 23 <= s.len(),
    ensures
        r == camera_name_at(s@, i as int),
{
    let ghost t = s@;
    let prefix = (s[i] == 'I' && s[i + 1] == 'M' && s[i + 2] == 'G' && s[i + 3] == '_') || (s[i]
        == 'V' && s[i + 1] == 'I' && s[i + 2] == 'D' && s[i + 3] == '_');
    let ext = (s[i + 20] == 'j' && s[i + 21] == 'p' && s[i + 22] == 'g') || (s[i + 20] == 'm'
        && s[i + 21] == 'p' && s[i + 22] == '4');
    proof {
        let p = t.subrange(i as int, i + 4);
        let x = t.subrange(i + 20, i + 23);
        assert(p =~= seq![t[i as int], t[i + 1], t[i + 2], t[i + 3]]);
        assert(x =~= seq![t[i + 20], t[i + 21], t[i + 22]]);
    }
    prefix && digits_exec(s, i + 4, i + 12) && s[i + 12] == '_' && digits_exec(s, i + 13, i + 19)
        && s[i + 19] == '.' && ext
}

/// Position of the first camera-style name in `s`, if any.
fn find_camera_name(s: &Vec<char>) -> (r: Option<usize>)
    ensures
        match r {
            Some(i) => first_camera_name(s@, i as int),
            None => forall|j: int| !camera_name_at(s@, j),
        },
{
    if s.len() < CAMERA_NAME_LEN {
        return None;
    }
    let last = s.len() - CAMERA_NAME_LEN;
    let mut i: usize = 0;
    while i <= last
        invariant
            last + 23 == s.len(),
            i <= last + 1,
            forall|j: int| 0 <= j < i ==> !camera_name_at(s@, j),
        decreases s.len() - i,
    {
        if camera_name_at_exec(s, i) {
            return Some(i);
        }
        i = i + 1;
    }
    None
}

/// Where a file goes by a camera-style name in its path:
/// `YYYY/MM/DD/<name>` for the first name of the form
/// `(IMG|VID)_YYYYMMDD_HHMMSS.(jpg|mp4)` found anywhere in `filename`, with
/// its own digits; `None` when there is no such name.
pub fn smartphone_file(filename: &str) -> (r: Option<String>)
    ensures
        opt_view(r) == camera_destination(filename@),
{
    let s = chars_of(filename);
    match find_camera_name(&s) {
        None => None,
        Some(i) => {
            assert(camera_name_at(s@, i as int));
            assert(i + 23 <= s.len());
            proof {
                let j = choose|j: int| first_camera_name(s@, j);
                assert(j == i as int);
            }
            let mut r = filename.substring_char(i + 4, i + 8).to_string();
            r.append("/");
            r.append(filename.substring_char(i + 8, i + 10));
            r.append("/");
            r.append(filename.substring_char(i + 10, i + 12));
            r.append("/");
            r.append(filename.substring_char(i, i + CAMERA_NAME_LEN));
            proof {
                reveal_strlit("/");
            }
            assert(r@ =~= camera_fragment(s@, i as int));
            Some(r)
        },
    }
}

/// A name of camera form resolves to `YYYY/MM/DD/<name>`, with exactly the
/// digits that the name holds.
pub proof fn lemma_camera_name_resolves(name: Seq<char>)
    requires
        name.len() == 23,
        camera_name_at(name, 0),
    ensures
        camera_destination(name) == Some(
            name.subrange(4, 8) + seq!['/'] + name.subrange(8, 10) + seq!['/'] + name.subrange(
                10,
                12,
            ) + seq!['/'] + name,
        ),
{
    let j = choose|j: int| first_camera_name(name, j);
    assert(first_camera_name(name, 0));
    assert(j == 0);
    assert(name.subrange(0, 23) =~= name);
}

} // verus!
