use vstd::prelude::*;

verus! {

/// Index of the last occurrence of `c` in `s`, or -1 when `c` does not occur.
pub open spec fn last_index_of(s: Seq<char>, c: char) -> int
    decreases s.len(),
{
    if s.len() == 0 {
        -1
    } else if s.last() == c {
        s.len() - 1
    } else {
        last_index_of(s.drop_last(), c)
    }
}

/// Everything after the last `/` of a path. For a path that ends in a name
/// (such as one ending in `.jpg`), that name.
pub open spec fn base_name(p: Seq<char>) -> Seq<char> {
    p.subrange(last_index_of(p, '/') + 1, p.len() as int)
}

/// A path without its trailing separators and trailing `.` components.
pub open spec fn trim_end(p: Seq<char>) -> Seq<char>
    decreases p.len(),
{
    if p.len() > 0 && p.last() == '/' {
        trim_end(p.drop_last())
    } else if p.len() >= 2 && p.last() == '.' && p[p.len() - 2] == '/' {
        trim_end(p.drop_last())
    } else {
        p
    }
}

/// The file name of a path: its last component once trailing separators and
/// `.` components are dropped; none when that component is empty, `.` or `..`.
pub open spec fn file_name(p: Seq<char>) -> Option<Seq<char>> {
    let name = base_name(trim_end(p));
    if name.len() == 0 || name == seq!['.'] || name == seq!['.', '.'] {
        None
    } else {
        Some(name)
    }
}

/// The extension of a path: what follows the last `.` of its file name,
/// provided that dot is not the name's first character.
pub open spec fn extension(p: Seq<char>) -> Option<Seq<char>> {
    match file_name(p) {
        None => None,
        Some(name) => {
            let dot = last_index_of(name, '.');
            if dot <= 0 {
                None
            } else {
                Some(name.subrange(dot + 1, name.len() as int))
            }
        },
    }
}

/// `a` is the lower-case letter `l`, or its ASCII upper-case form; for any
/// other `l`, `a` is `l` itself.
pub open spec fn same_letter(a: char, l: char) -> bool {
    a == l || ('a' <= l && l <= 'z' && a as u32 + 32 == l as u32)
}

/// `e` spells the lower-case word `w`, ignoring ASCII letter case.
pub open spec fn spells(e: Seq<char>, w: Seq<char>) -> bool {
    e.len() == w.len() && forall|i: int| 0 <= i < e.len() ==> same_letter(#[trigger] e[i], w[i])
}

pub open spec fn is_media_extension(e: Seq<char>) -> bool {
    spells(e, seq!['j', 'p', 'g']) || spells(e, seq!['j', 'p', 'e', 'g']) || spells(
        e,
        seq!['m', 'p', '4'],
    ) || spells(e, seq!['p', 'n', 'g'])
}

/// A path names a photo or a video: its extension is jpg, jpeg, mp4 or png,
/// in any letter case.
pub open spec fn is_media_path(p: Seq<char>) -> bool {
    match extension(p) {
        Some(e) => is_media_extension(e),
        None => false,
    }
}

/// `p` with `/` and `frag` after it; `frag` alone where `p` is empty, and no
/// second `/` where `p` already ends with one.
pub open spec fn join(p: Seq<char>, frag: Seq<char>) -> Seq<char> {
    if p.len() == 0 {
        frag
    } else if p.last() == '/' {
        p + frag
    } else {
        p + seq!['/'] + frag
    }
}

proof fn lemma_last_index_of(s: Seq<char>, c: char, i: int)
    requires
        -1 <= i < s.len(),
        i >= 0 ==> s[i] == c,
        forall|k: int| i < k < s.len() ==> s[k] != c,
    ensures
        last_index_of(s, c) == i,
    decreases s.len(),
{
    if s.len() > 0 && s.last() != c {
        let t = s.drop_last();
        assert forall|k: int| i < k < t.len() implies t[k] != c by {
            assert(t[k] == s[k]);
        }
        lemma_last_index_of(t, c, i);
    }
}

/// The characters of `s`, one by one.
pub fn chars_of(s: &str) -> (r: Vec<char>)
    ensures
        r@ == s@,
{
    let mut r: Vec<char> = Vec::new();
    for c in it: s.chars()
        invariant
            it.seq() == s@,
            r@ == it.seq().take(it.index() as int),
    {
        r.push(c);
        assert(r@ == it.seq().take(it.index() as int + 1));
    }
    assert(r@ == s@);
    r
}

/// The last position in `s[lo..hi]` that holds `c`, if any.
fn last_position(s: &Vec<char>, lo: usize, hi: usize, c: char) -> (r: Option<usize>)
    requires
        lo <= hi <= s.len(),
    ensures
        match r {
            Some(i) => lo <= i < hi && s[i as int] == c && forall|k: int| i < k < hi ==> s[k] != c,
            None => forall|k: int| lo <= k < hi ==> s[k] != c,
        },
{
    let mut i: usize = hi;
    while i > lo
        invariant
            lo <= i <= hi <= s.len(),
            forall|k: int| i <= k < hi ==> s[k] != c,
        decreases i,
    {
        if s[i - 1] == c {
            return Some(i - 1);
        }
        i = i - 1;
    }
    None
}

/// Position in `s[0..hi]` at which the part after its last `/` starts.
fn base_start(s: &Vec<char>, hi: usize) -> (r: usize)
    requires
        hi <= s.len(),
    ensures
        r <= hi,
        r == last_index_of(s@.subrange(0, hi as int), '/') + 1,
{
    let ghost t = s@.subrange(0, hi as int);
    match last_position(s, 0, hi, '/') {
        Some(i) => {
            proof {
                lemma_last_index_of(t, '/', i as int);
            }
            i + 1
        },
        None => {
            proof {
                lemma_last_index_of(t, '/', -1);
            }
            0
        },
    }
}

/// Length of the path `s` once its trailing separators and `.` components
/// are dropped.
fn trimmed_len(s: &Vec<char>) -> (r: usize)
    ensures
        r <= s.len(),
        trim_end(s@) == s@.subrange(0, r as int),
{
    let mut end: usize = s.len();
    assert(s@.subrange(0, end as int) == s@);
    loop
        invariant
            end <= s.len(),
            trim_end(s@) == trim_end(s@.subrange(0, end as int)),
        decreases end,
    {
        let ghost t = s@.subrange(0, end as int);
        if end > 0 && s[end - 1] == '/' {
            assert(t.drop_last() == s@.subrange(0, end - 1));
            end = end - 1;
        } else if end >= 2 && s[end - 1] == '.' && s[end - 2] == '/' {
            assert(t.drop_last() == s@.subrange(0, end - 1));
            end = end - 1;
        } else {
            return end;
        }
    }
}
/// The base name of a path.
pub fn base_name_of(path: &str) -> (r: String)
    ensures
        r@ == base_name(path@),
{
    let s = chars_of(path);
    let b = base_start(&s, s.len());
    assert(s@.subrange(0, s.len() as int) == s@);
    path.substring_char(b, s.len()).to_string()
}

/// Start and end of the extension of `s`, if it has one.
fn extension_bounds(s: &Vec<char>) -> (r: Option<(usize, usize)>)
    ensures
        match r {
            Some((lo, hi)) => lo <= hi <= s.len() && extension(s@) == Some(
                s@.subrange(lo as int, hi as int),
            ),
            None => extension(s@) is None,
        },
{
    let end = trimmed_len(s);
    let b = base_start(s, end);
    let ghost t = s@.subrange(0, end as int);
    let ghost name = base_name(t);
    assert(name == s@.subrange(b as int, end as int));
    let n = end - b;
    if n == 0 || (n == 1 && s[b] == '.') || (n == 2 && s[b] == '.' && s[b + 1] == '.') {
        assert(n == 1 ==> name =~= seq!['.']);
        assert(n == 2 ==> name =~= seq!['.', '.']);
        return None;
    }
    assert(name != seq!['.']) by {
        if n == 1 {
            assert(name[0] == s[b as int]);
        }
    }
    assert(name != seq!['.', '.']) by {
        if n == 2 {
            assert(name[0] == s[b as int]);
            assert(name[1] == s[b + 1]);
        }
    }
    match last_position(s, b, end, '.') {
        Some(d) => {
            proof {
                assert forall|k: int| (d - b) < k < name.len() implies name[k] != '.' by {
                    assert(name[k] == s[b + k]);
                }
                lemma_last_index_of(name, '.', d - b);
            }
            if d == b {
                None
            } else {
                assert(name.subrange(d - b + 1, name.len() as int) == s@.subrange(
                    d + 1,
                    end as int,
                ));
                Some((d + 1, end))
            }
        },
        None => {
            proof {
                assert forall|k: int| -1 < k < name.len() implies name[k] != '.' by {
                    assert(name[k] == s[b + k]);
                }
                lemma_last_index_of(name, '.', -1);
            }
            None
        },
    }
}

/// `c` equals the lower-case letter `l` ignoring ASCII case.
fn same_letter_exec(c: char, l: char) -> (r: bool)
    ensures
        r == same_letter(c, l),
{
    c == l || ('a' <= l && l <= 'z' && (c as u32) + 32 == l as u32)
}

/// Whether `s[lo..hi]` spells the lower-case word `w`, ignoring ASCII case.
pub(crate) fn spells_exec(s: &Vec<char>, lo: usize, hi: usize, w: &[char]) -> (r: bool)
    requires
        lo <= hi <= s.len(),
    ensures
        r == spells(s@.subrange(lo as int, hi as int), w@),
{
    let ghost e = s@.subrange(lo as int, hi as int);
    if hi - lo != w.len() {
        return false;
    }
    let mut i: usize = 0;
    while i < w.len()
        invariant
            hi - lo == w.len(),
            lo <= hi <= s.len(),
            e == s@.subrange(lo as int, hi as int),
            i <= w.len(),
            forall|k: int| 0 <= k < i ==> same_letter(#[trigger] e[k], w@[k]),
        decreases w.len() - i,
    {
        if !same_letter_exec(s[lo + i], w[i]) {
            assert(!same_letter(e[i as int], w@[i as int]));
            return false;
        }
        i = i + 1;
    }
    true
}

/// Whether `path` names a photo or a video: its extension is jpg, jpeg, mp4
/// or png, in any letter case. A path without an extension is none.
pub fn is_media_file(path: &str) -> (r: bool)
    ensures
        r == is_media_path(path@),
{
    let s = chars_of(path);
    match extension_bounds(&s) {
        None => false,
        Some((lo, hi)) => {
            let ghost e = s@.subrange(lo as int, hi as int);
            let jpg = spells_exec(&s, lo, hi, &['j', 'p', 'g']);
            let jpeg = spells_exec(&s, lo, hi, &['j', 'p', 'e', 'g']);
            let mp4 = spells_exec(&s, lo, hi, &['m', 'p', '4']);
            let png = spells_exec(&s, lo, hi, &['p', 'n', 'g']);
            proof {
                assert(['j', 'p', 'g']@ == seq!['j', 'p', 'g']);
                assert(['j', 'p', 'e', 'g']@ == seq!['j', 'p', 'e', 'g']);
                assert(['m', 'p', '4']@ == seq!['m', 'p', '4']);
                assert(['p', 'n', 'g']@ == seq!['p', 'n', 'g']);
            }
            jpg || jpeg || mp4 || png
        },
    }
}

} // verus!
