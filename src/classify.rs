//! Deciding whether a path names a supported audio file, from its extension.
use vstd::prelude::*;

verus! {

/// Index of the last occurrence of `c` in `p`, or -1 if it does not occur.
pub open spec fn last_index_of(p: Seq<char>, c: char) -> int
    decreases p.len(),
{
    if p.len() == 0 {
        -1
    } else if p.last() == c {
        p.len() - 1
    } else {
        last_index_of(p.drop_last(), c)
    }
}

/// The final normal component of a `/`-separated path: empty and `.`
/// components are skipped, and a final `..` (or no component) has no name.
pub open spec fn file_name_of(p: Seq<char>) -> Option<Seq<char>>
    decreases p.len(),
    via file_name_of_decreases
{
    let k = last_index_of(p, '/');
    let seg = p.subrange(k + 1, p.len() as int);
    if seg == seq!['.', '.'] {
        None
    } else if seg.len() != 0 && seg != seq!['.'] {
        Some(seg)
    } else if k < 0 {
        None
    } else {
        file_name_of(p.subrange(0, k))
    }
}

#[via_fn]
proof fn file_name_of_decreases(p: Seq<char>) {
    lemma_last_index_bounds(p, '/');
}

pub proof fn lemma_last_index_bounds(p: Seq<char>, c: char)
    ensures
        -1 <= last_index_of(p, c) < p.len(),
        last_index_of(p, c) >= 0 ==> p[last_index_of(p, c)] == c,
        forall|j: int| last_index_of(p, c) < j < p.len() ==> p[j] != c,
    decreases p.len(),
{
    if p.len() > 0 && p.last() != c {
        lemma_last_index_bounds(p.drop_last(), c);
        assert forall|j: int| last_index_of(p, c) < j < p.len() implies p[j] != c by {
            if j < p.len() - 1 {
                assert(p[j] == p.drop_last()[j]);
            }
        }
    }
}

/// The last occurrence of `c` is the one after which no `c` follows.
pub proof fn lemma_last_index_char(p: Seq<char>, c: char, i: int)
    requires
        -1 <= i < p.len(),
        i >= 0 ==> p[i] == c,
        forall|j: int| i < j < p.len() ==> p[j] != c,
    ensures
        last_index_of(p, c) == i,
    decreases p.len(),
{
    if p.len() > 0 && i < p.len() - 1 {
        assert(p.last() != c);
        assert forall|j: int| i < j < p.len() - 1 implies p.drop_last()[j] != c by {
            assert(p.drop_last()[j] == p[j]);
        }
        lemma_last_index_char(p.drop_last(), c, i);
    }
}

/// A path made of a non-empty prefix that does not end in a separator, a
/// dot, and a non-empty extension without separators or dots, has exactly
/// that extension; it is an audio path precisely when the extension matches
/// a recognised one ignoring case (so `song.MP3` and `song.Mp3` are audio
/// paths, and `song.txt` is not).
pub proof fn lemma_classification(base: Seq<char>, e: Seq<char>)
    requires
        base.len() > 0,
        base.last() != '/',
        e.len() > 0,
        forall|j: int| 0 <= j < e.len() ==> e[j] != '/' && e[j] != '.',
    ensures
        extension_of(base + seq!['.'] + e) == Some(e),
        is_audio_path(base + seq!['.'] + e) == is_allowed_extension(e, audio_extensions()),
{
    let p = base + seq!['.'] + e;
    let n = base.len() as int;
    let k = last_index_of(base, '/');
    lemma_last_index_bounds(base, '/');
    assert forall|j: int| k < j < p.len() implies p[j] != '/' by {
        if j < n {
            assert(p[j] == base[j]);
        } else if j > n {
            assert(p[j] == e[j - n - 1]);
        }
    }
    if k >= 0 {
        assert(p[k] == base[k]);
    }
    lemma_last_index_char(p, '/', k);
    let seg = p.subrange(k + 1, p.len() as int);
    assert(seg.len() >= 3);
    assert(seg != seq!['.', '.']);
    assert(seg != seq!['.']);
    assert(file_name_of(p) == Some(seg));
    let d = n - k - 1;
    assert(seg[d] == '.');
    assert forall|j: int| d < j < seg.len() implies seg[j] != '.' by {
        assert(seg[j] == e[j - d - 1]);
    }
    lemma_last_index_char(seg, '.', d);
    assert(seg.subrange(d + 1, seg.len() as int) =~= e);
}

/// The extension of a file name: what follows its last dot, where that dot
/// is not the first character.
pub open spec fn name_extension(name: Seq<char>) -> Option<Seq<char>> {
    let d = last_index_of(name, '.');
    if d <= 0 {
        None
    } else {
        Some(name.subrange(d + 1, name.len() as int))
    }
}

/// The stem of a file name: what precedes its last dot, or the whole name
/// where there is no dot past the first character.
pub open spec fn name_stem(name: Seq<char>) -> Seq<char> {
    let d = last_index_of(name, '.');
    if d <= 0 {
        name
    } else {
        name.subrange(0, d)
    }
}

pub open spec fn extension_of(p: Seq<char>) -> Option<Seq<char>> {
    match file_name_of(p) {
        Some(name) => name_extension(name),
        None => None,
    }
}

pub open spec fn stem_of(p: Seq<char>) -> Option<Seq<char>> {
    match file_name_of(p) {
        Some(name) => Some(name_stem(name)),
        None => None,
    }
}

/// The code point of a character with ASCII letters folded to lower case.
pub open spec fn fold_char(c: char) -> u32 {
    if 'A' <= c <= 'Z' {
        (c as u32 + 32) as u32
    } else {
        c as u32
    }
}

pub open spec fn same_ignoring_case(a: Seq<char>, b: Seq<char>) -> bool {
    a.len() == b.len() && forall|i: int| 0 <= i < a.len() ==> fold_char(a[i]) == fold_char(b[i])
}

/// The recognised audio extensions, in lower case.
pub open spec fn audio_extensions() -> Seq<Seq<char>> {
    seq![
        seq!['m', 'p', '3'],
        seq!['w', 'a', 'v'],
        seq!['f', 'l', 'a', 'c'],
        seq!['o', 'g', 'g'],
        seq!['m', '4', 'a'],
        seq!['a', 'a', 'c'],
        seq!['o', 'p', 'u', 's'],
    ]
}

pub open spec fn is_allowed_extension(e: Seq<char>, allowed: Seq<Seq<char>>) -> bool {
    exists|k: int| 0 <= k < allowed.len() && same_ignoring_case(e, #[trigger] allowed[k])
}

/// A path is an audio path when it has an extension that matches one of the
/// recognised extensions, ignoring case.
pub open spec fn is_audio_path(p: Seq<char>) -> bool {
    match extension_of(p) {
        Some(e) => is_allowed_extension(e, audio_extensions()),
        None => false,
    }
}

/// Position of the last `c` in the characters `start..end` of `s`.
fn last_index_between(s: &str, start: usize, end: usize, c: char) -> (r: Option<usize>)
    requires
        start <= end <= s@.len(),
    ensures
        match r {
            Some(i) => start <= i < end && last_index_of(s@.subrange(start as int, end as int), c)
                == i - start,
            None => last_index_of(s@.subrange(start as int, end as int), c) == -1,
        },
{
    let mut i: usize = end;
    while i > start
        invariant
            start <= i <= end <= s@.len(),
            last_index_of(s@.subrange(start as int, end as int), c) == last_index_of(
                s@.subrange(start as int, i as int),
                c,
            ),
        decreases i,
    {
        let ghost before = s@.subrange(start as int, i as int);
        if s.get_char(i - 1) == c {
            return Some(i - 1);
        }
        assert(before.drop_last() =~= s@.subrange(start as int, i - 1));
        i = i - 1;
    }
    None
}

/// Bounds of the file name of the first `end` characters of `s`.
fn file_name_bounds(s: &str, end: usize) -> (r: Option<(usize, usize)>)
    requires
        end <= s@.len(),
    ensures
        match r {
            Some((a, b)) => a <= b <= end && file_name_of(s@.subrange(0, end as int)) == Some(
                s@.subrange(a as int, b as int),
            ),
            None => file_name_of(s@.subrange(0, end as int)) is None,
        },
    decreases end,
{
    let ghost p = s@.subrange(0, end as int);
    let k = last_index_between(s, 0, end, '/');
    let start: usize = match k {
        Some(k) => k + 1,
        None => 0,
    };
    let ghost seg = p.subrange(last_index_of(p, '/') + 1, p.len() as int);
    assert(seg =~= s@.subrange(start as int, end as int));
    let len: usize = end - start;
    let two_dots = len == 2 && s.get_char(start) == '.' && s.get_char(start + 1) == '.';
    let one_dot = len == 1 && s.get_char(start) == '.';
    assert(two_dots <==> seg == seq!['.', '.']) by {
        if seg == seq!['.', '.'] {
            assert(seg[0] == '.' && seg[1] == '.');
        }
        if two_dots {
            assert(seg =~= seq!['.', '.']);
        }
    }
    assert(one_dot <==> seg == seq!['.']) by {
        if seg == seq!['.'] {
            assert(seg[0] == '.');
        }
        if one_dot {
            assert(seg =~= seq!['.']);
        }
    }
    if two_dots {
        None
    } else if len != 0 && !one_dot {
        Some((start, end))
    } else {
        match k {
            None => None,
            Some(k) => {
                assert(p.subrange(0, k as int) =~= s@.subrange(0, k as int));
                file_name_bounds(s, k)
            },
        }
    }
}

/// The split of the file name `s[a..b]` at its last dot past the first
/// character: the bounds of the stem and of the extension, if any.
fn split_name(s: &str, a: usize, b: usize) -> (r: ((usize, usize), Option<(usize, usize)>))
    requires
        a <= b <= s@.len(),
    ensures
        a <= r.0.0 <= r.0.1 <= b,
        s@.subrange(r.0.0 as int, r.0.1 as int) == name_stem(s@.subrange(a as int, b as int)),
        match r.1 {
            Some((x, y)) => x <= y <= b && name_extension(s@.subrange(a as int, b as int)) == Some(
                s@.subrange(x as int, y as int),
            ),
            None => name_extension(s@.subrange(a as int, b as int)) is None,
        },
{
    let ghost name = s@.subrange(a as int, b as int);
    match last_index_between(s, a, b, '.') {
        Some(i) if i > a => {
            assert(name.subrange(0, i - a) =~= s@.subrange(a as int, i as int));
            assert(name.subrange(i - a + 1, name.len() as int) =~= s@.subrange(i + 1, b as int));
            ((a, i), Some((i + 1, b)))
        },
        _ => ((a, b), None),
    }
}

/// The bounds of the extension of `path`, if it has one.
fn extension_bounds(path: &str) -> (r: Option<(usize, usize)>)
    ensures
        match r {
            Some((x, y)) => x <= y <= path@.len() && extension_of(path@) == Some(
                path@.subrange(x as int, y as int),
            ),
            None => extension_of(path@) is None,
        },
{
    let n = path.unicode_len();
    assert(path@.subrange(0, n as int) =~= path@);
    match file_name_bounds(path, n) {
        None => None,
        Some((a, b)) => split_name(path, a, b).1,
    }
}

/// The stem of the file name of `path`, if the path has a file name.
pub fn file_stem(path: &str) -> (r: Option<&str>)
    ensures
        match r {
            Some(t) => stem_of(path@) == Some(t@),
            None => stem_of(path@) is None,
        },
{
    let n = path.unicode_len();
    assert(path@.subrange(0, n as int) =~= path@);
    match file_name_bounds(path, n) {
        None => None,
        Some((a, b)) => {
            let (stem, _) = split_name(path, a, b);
            Some(path.substring_char(stem.0, stem.1))
        },
    }
}

fn fold(c: char) -> (r: u32)
    ensures
        r == fold_char(c),
{
    if 'A' <= c && c <= 'Z' {
        c as u32 + 32
    } else {
        c as u32
    }
}

/// Whether the characters `from..to` of `s` equal `t`, ignoring ASCII case.
fn same_ignoring_case_at(s: &str, from: usize, to: usize, t: &str) -> (r: bool)
    requires
        from <= to <= s@.len(),
    ensures
        r == same_ignoring_case(s@.subrange(from as int, to as int), t@),
{
    let ghost u = s@.subrange(from as int, to as int);
    let n = t.unicode_len();
    if to - from != n {
        return false;
    }
    let mut i: usize = 0;
    while i < n
        invariant
            i <= n == t@.len() == u.len(),
            from <= to <= s@.len(),
            u == s@.subrange(from as int, to as int),
            to - from == n,
            forall|j: int| 0 <= j < i ==> fold_char(u[j]) == fold_char(t@[j]),
        decreases n - i,
    {
        assert(u[i as int] == s@[from + i]);
        if fold(s.get_char(from + i)) != fold(t.get_char(i)) {
            return false;
        }
        i = i + 1;
    }
    true
}

fn audio_extension_list() -> (r: Vec<&'static str>)
    ensures
        r@.len() == audio_extensions().len(),
        forall|k: int| 0 <= k < r@.len() ==> (#[trigger] r@[k])@ == audio_extensions()[k],
{
    proof {
        reveal_strlit("mp3");
        reveal_strlit("wav");
        reveal_strlit("flac");
        reveal_strlit("ogg");
        reveal_strlit("m4a");
        reveal_strlit("aac");
        reveal_strlit("opus");
    }
    let r = vec!["mp3", "wav", "flac", "ogg", "m4a", "aac", "opus"];
    assert(r@[0]@ =~= audio_extensions()[0]);
    assert(r@[1]@ =~= audio_extensions()[1]);
    assert(r@[2]@ =~= audio_extensions()[2]);
    assert(r@[3]@ =~= audio_extensions()[3]);
    assert(r@[4]@ =~= audio_extensions()[4]);
    assert(r@[5]@ =~= audio_extensions()[5]);
    assert(r@[6]@ =~= audio_extensions()[6]);
    r
}

/// Whether `path` names a supported audio file: its extension, compared
/// without regard to ASCII case, is one of `mp3`, `wav`, `flac`, `ogg`,
/// `m4a`, `aac` and `opus`.
pub fn is_audio_file(path: &str) -> (r: bool)
    ensures
        r == is_audio_path(path@),
{
    match extension_bounds(path) {
        None => false,
        Some((x, y)) => {
            let ghost e = path@.subrange(x as int, y as int);
            assert(extension_of(path@) == Some(e));
            let list = audio_extension_list();
            let mut k: usize = 0;
            while k < list.len()
                invariant
                    k <= list@.len() == audio_extensions().len(),
                    x <= y <= path@.len(),
                    e == path@.subrange(x as int, y as int),
                    extension_of(path@) == Some(e),
                    forall|j: int| 0 <= j < list@.len() ==> (#[trigger] list@[j])@ == audio_extensions()[j],
                    forall|j: int| 0 <= j < k ==> !same_ignoring_case(e, #[trigger] audio_extensions()[j]),
                decreases list@.len() - k,
            {
                if same_ignoring_case_at(path, x, y, list[k]) {
                    assert(same_ignoring_case(e, audio_extensions()[k as int]));
                    assert(is_allowed_extension(e, audio_extensions()));
                    return true;
                }
                k = k + 1;
            }
            false
        },
    }
}

} // verus!
