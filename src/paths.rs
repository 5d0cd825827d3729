//! Which files of a directory walk are images to analyse.
use vstd::prelude::*;

verus! {

/// The last index of `c` in `s`, or `-1`.
pub open spec fn last_index_of(s: Seq<char>, c: char) -> int
    decreases s.len(),
{
    if s.len() == 0 {
        -1
    } else if s.last() == c {
        s.len() - 1
    } else {
        last_index_of(s.drop_last(), c)
    }
}

/// Whether a path ends in a separator, or in a `.` component after one.
pub open spec fn ends_in_separator(p: Seq<char>) -> bool {
    p.len() > 0 && (p.last() == '/' || (p.len() >= 2 && p.last() == '.' && p[p.len() - 2] == '/'))
}

/// The path without trailing separators and trailing `.` components.
pub open spec fn trimmed(p: Seq<char>) -> Seq<char>
    decreases p.len(),
{
    if ends_in_separator(p) {
        trimmed(p.drop_last())
    } else {
        p
    }
}

/// What follows the last `/`.
pub open spec fn after_last_slash(p: Seq<char>) -> Seq<char> {
    p.subrange(last_index_of(p, '/') + 1, p.len() as int)
}

/// The final component of a `/`-separated path; trailing separators and
/// trailing `.` components are ignored.
pub open spec fn file_name_of(p: Seq<char>) -> Seq<char> {
    after_last_slash(trimmed(p))
}

/// The extension of a path: what follows the last `.` of its file name, when
/// that dot is not the name's first character.
pub open spec fn extension_of(p: Seq<char>) -> Option<Seq<char>> {
    let name = file_name_of(p);
    let dot = last_index_of(name, '.');
    if dot <= 0 {
        None
    } else {
        Some(name.subrange(dot + 1, name.len() as int))
    }
}

/// `a` spells the lower-case ASCII word `word`, in either case.
pub open spec fn equals_ignoring_case(a: Seq<char>, word: Seq<char>) -> bool {
    &&& a.len() == word.len()
    &&& forall|i: int|
        0 <= i < a.len() ==> #[trigger] a[i] == word[i] || (a[i] as u32) + 32 == (word[i] as u32)
}

/// The extensions recognised as images: jpg, jpeg and png, in any case.
pub open spec fn is_image_extension(e: Seq<char>) -> bool {
    ||| equals_ignoring_case(e, seq!['j', 'p', 'g'])
    ||| equals_ignoring_case(e, seq!['j', 'p', 'e', 'g'])
    ||| equals_ignoring_case(e, seq!['p', 'n', 'g'])
}

pub open spec fn is_image_path_spec(p: Seq<char>) -> bool {
    match extension_of(p) {
        Some(e) => is_image_extension(e),
        None => false,
    }
}

fn chars_of(s: &str) -> (r: Vec<char>)
    ensures
        r@ == s@,
{
    let mut out: Vec<char> = Vec::new();
    for c in it: s.chars()
        invariant
            it.seq() == s@,
            out@ == s@.take(it.index() as int),
    {
        proof {
            assert(s@.take(it.index() + 1) =~= s@.take(it.index() as int).push(c));
        }
        out.push(c);
    }
    proof {
        assert(s@.take(s@.len() as int) =~= s@);
    }
    out
}

fn last_index_exec(s: &Vec<char>, c: char) -> (r: Option<usize>)
    ensures
        match r {
            Some(k) => k == last_index_of(s@, c),
            None => last_index_of(s@, c) == -1,
        },
{
    let mut k: usize = s.len();
    assert(s@.take(k as int) =~= s@);
    while k > 0
        invariant
            k <= s.len(),
            last_index_of(s@, c) == last_index_of(s@.take(k as int), c),
        decreases k,
    {
        assert(s@.take(k as int).drop_last() =~= s@.take(k - 1));
        if s[k - 1] == c {
            return Some(k - 1);
        }
        k -= 1;
    }
    None
}

fn equals_ignoring_case_exec(a: &Vec<char>, from: usize, word: &Vec<char>) -> (r: bool)
    requires
        from <= a.len(),
    ensures
        r == equals_ignoring_case(a@.subrange(from as int, a@.len() as int), word@),
{
    if a.len() - from != word.len() {
        return false;
    }
    let mut i: usize = 0;
    while i < word.len()
        invariant
            from <= a.len(),
            a.len() - from == word.len(),
            i <= word.len(),
            forall|j: int|
                0 <= j < i ==> #[trigger] a@[from + j] == word@[j] || (a@[from + j] as u32) + 32 == (
                word@[j] as u32),
        decreases word.len() - i,
    {
        let x = a[from + i];
        let w = word[i];
        if !(x == w || (w as u32 >= 32 && x as u32 == w as u32 - 32)) {
            assert(a@.subrange(from as int, a@.len() as int)[i as int] == x);
            return false;
        }
        i += 1;
    }
    assert forall|j: int| 0 <= j < word.len() implies #[trigger] a@.subrange(from as int, a@.len() as int)[j]
        == word@[j] || (a@.subrange(from as int, a@.len() as int)[j] as u32) + 32 == (word@[j] as u32) by {
        assert(a@.subrange(from as int, a@.len() as int)[j] == a@[from + j]);
    }
    true
}

/// Whether the path names an image by its extension: jpg, jpeg or png, in any case.
pub fn is_image_path(path: &str) -> (r: bool)
    ensures
        r == is_image_path_spec(path@),
{
    let mut cs = chars_of(path);
    while cs.len() > 0 && (cs[cs.len() - 1] == '/' || (cs.len() >= 2 && cs[cs.len() - 1] == '.'
        && cs[cs.len() - 2] == '/'))
        invariant
            trimmed(path@) == trimmed(cs@),
        decreases cs.len(),
    {
        let _ = cs.pop();
    }
    assert(trimmed(cs@) == cs@);
    let n = cs.len();
    proof {
        lemma_last_index_bounds(cs@, '/');
        lemma_last_index_bounds(cs@, '.');
    }
    let start: usize = match last_index_exec(&cs, '/') {
        Some(k) => k + 1,
        None => 0,
    };
    let ghost name = after_last_slash(cs@);
    proof {
        lemma_last_index_bounds(cs@, '/');
        lemma_last_index_bounds(cs@, '.');
        lemma_last_index_suffix(cs@, start as int, '.');
    }
    let dot: usize = match last_index_exec(&cs, '.') {
        Some(k) => k,
        None => {
            return false;
        },
    };
    if dot <= start {
        return false;
    }
    let from = (dot + 1) as usize;
    assert(name.subrange(dot - start + 1, name.len() as int) =~= cs@.subrange(from as int, cs@.len() as int));
    let jpg = vec!['j', 'p', 'g'];
    let jpeg = vec!['j', 'p', 'e', 'g'];
    let png = vec!['p', 'n', 'g'];
    equals_ignoring_case_exec(&cs, from, &jpg) || equals_ignoring_case_exec(&cs, from, &jpeg)
        || equals_ignoring_case_exec(&cs, from, &png)
}

proof fn lemma_last_index_bounds(s: Seq<char>, c: char)
    ensures
        -1 <= last_index_of(s, c) < s.len(),
        last_index_of(s, c) >= 0 ==> s[last_index_of(s, c)] == c,
        forall|j: int| last_index_of(s, c) < j < s.len() ==> s[j] != c,
    decreases s.len(),
{
    if s.len() > 0 && s.last() != c {
        lemma_last_index_bounds(s.drop_last(), c);
        assert forall|j: int| last_index_of(s, c) < j < s.len() implies s[j] != c by {
            if j < s.len() - 1 {
                assert(s.drop_last()[j] == s[j]);
            }
        }
    }
}

/// Searching a suffix finds the same occurrence, shifted, when it lies in the suffix.
proof fn lemma_last_index_suffix(s: Seq<char>, start: int, c: char)
    requires
        0 <= start <= s.len(),
    ensures
        last_index_of(s, c) >= start ==> last_index_of(s.subrange(start, s.len() as int), c)
            == last_index_of(s, c) - start,
        last_index_of(s, c) < start ==> last_index_of(s.subrange(start, s.len() as int), c) == -1,
    decreases s.len(),
{
    let t = s.subrange(start, s.len() as int);
    if s.len() > start {
        assert(t.drop_last() =~= s.drop_last().subrange(start, s.len() - 1));
        assert(t.last() == s.last());
        if s.last() != c {
            lemma_last_index_suffix(s.drop_last(), start, c);
            assert(last_index_of(t, c) == last_index_of(t.drop_last(), c));
        } else {
            assert(last_index_of(t, c) == t.len() - 1);
        }
    } else {
        assert(t.len() == 0);
        lemma_last_index_bounds(s, c);
    }
}


/// Lexicographic order on character codes.
pub open spec fn lex_le(a: Seq<char>, b: Seq<char>) -> bool
    decreases a.len(),
{
    if a.len() == 0 {
        true
    } else if b.len() == 0 {
        false
    } else if (a[0] as u32) != (b[0] as u32) {
        (a[0] as u32) < (b[0] as u32)
    } else {
        lex_le(a.drop_first(), b.drop_first())
    }
}

pub open spec fn sorted_lex(s: Seq<Seq<char>>) -> bool {
    forall|i: int, j: int| 0 <= i < j < s.len() ==> lex_le(#[trigger] s[i], #[trigger] s[j])
}

pub open spec fn views(s: Seq<String>) -> Seq<Seq<char>> {
    s.map_values(|x: String| x@)
}

proof fn lemma_lex_total(a: Seq<char>, b: Seq<char>)
    ensures
        lex_le(a, b) || lex_le(b, a),
    decreases a.len(),
{
    if a.len() > 0 && b.len() > 0 && (a[0] as u32) == (b[0] as u32) {
        lemma_lex_total(a.drop_first(), b.drop_first());
    }
}

proof fn lemma_lex_trans(a: Seq<char>, b: Seq<char>, c: Seq<char>)
    requires
        lex_le(a, b),
        lex_le(b, c),
    ensures
        lex_le(a, c),
    decreases a.len(),
{
    if a.len() > 0 && (a[0] as u32) == (b[0] as u32) && (b[0] as u32) == (c[0] as u32) {
        lemma_lex_trans(a.drop_first(), b.drop_first(), c.drop_first());
    }
}

fn lex_le_exec(a: &Vec<char>, b: &Vec<char>) -> (r: bool)
    ensures
        r == lex_le(a@, b@),
{
    let mut i: usize = 0;
    assert(a@.skip(0) =~= a@ && b@.skip(0) =~= b@);
    while i < a.len() && i < b.len()
        invariant
            i <= a@.len(),
            i <= b@.len(),
            lex_le(a@, b@) == lex_le(a@.skip(i as int), b@.skip(i as int)),
        decreases a.len() - i,
    {
        assert(a@.skip(i as int).drop_first() =~= a@.skip(i + 1));
        assert(b@.skip(i as int).drop_first() =~= b@.skip(i + 1));
        assert(a@.skip(i as int)[0] == a@[i as int] && b@.skip(i as int)[0] == b@[i as int]);
        if a[i] as u32 != b[i] as u32 {
            return (a[i] as u32) < (b[i] as u32);
        }
        i += 1;
    }
    assert(a@.skip(i as int).len() == 0 || b@.skip(i as int).len() == 0);
    i == a.len()
}

/// Sorts paths lexicographically by character code.
pub fn sort_paths(paths: Vec<String>) -> (r: Vec<String>)
    ensures
        sorted_lex(views(r@)),
        views(r@).to_multiset() == views(paths@).to_multiset(),
{
    broadcast use vstd::seq_lib::group_to_multiset_ensures;
    let mut out: Vec<String> = Vec::new();
    let mut keys: Vec<Vec<char>> = Vec::new();
    let mut i: usize = 0;
    while i < paths.len()
        invariant
            i <= paths@.len(),
            out@.len() == keys@.len(),
            forall|j: int| 0 <= j < keys@.len() ==> #[trigger] keys@[j]@ == out@[j]@,
            sorted_lex(views(out@)),
            views(out@).to_multiset() == views(paths@.take(i as int)).to_multiset(),
        decreases paths.len() - i,
    {
        let key = chars_of(paths[i].as_str());
        let mut p: usize = 0;
        while p < keys.len() && lex_le_exec(&keys[p], &key)
            invariant
                p <= keys@.len(),
                out@.len() == keys@.len(),
                forall|j: int| 0 <= j < keys@.len() ==> #[trigger] keys@[j]@ == out@[j]@,
                forall|m: int| 0 <= m < p ==> lex_le(#[trigger] keys@[m]@, key@),
            decreases keys.len() - p,
        {
            p += 1;
        }
        let ghost old_views = views(out@);
        let ghost old_keys = keys@;
        proof {
            if p < keys@.len() {
                lemma_lex_total(keys@[p as int]@, key@);
                assert forall|m: int| p <= m < old_views.len() implies lex_le(key@, #[trigger] old_views[m]) by {
                    if m > p {
                        assert(lex_le(old_views[p as int], old_views[m]));
                        lemma_lex_trans(key@, old_views[p as int], old_views[m]);
                    }
                }
            }
            assert(views(paths@.take(i + 1)) =~= views(paths@.take(i as int)).push(paths@[i as int]@));
        }
        let path = paths[i].clone();
        out.insert(p, path);
        keys.insert(p, key);
        proof {
            let nv = views(out@);
            assert(nv =~= old_views.insert(p as int, key@));
            assert(key@ == paths@[i as int]@);
            vstd::seq_lib::to_multiset_insert(old_views, p as int, key@);
            vstd::seq_lib::to_multiset_build(views(paths@.take(i as int)), paths@[i as int]@);
            assert forall|a: int, b: int| 0 <= a < b < nv.len() implies lex_le(#[trigger] nv[a], #[trigger] nv[b]) by {
                if a < p && b < p {
                    assert(lex_le(old_views[a], old_views[b]));
                } else if a < p && b == p {
                    assert(lex_le(keys@[a]@, key@));
                } else if a < p {
                    assert(lex_le(old_views[a], old_views[b - 1]));
                } else if a == p {
                    assert(lex_le(key@, old_views[b - 1]));
                } else {
                    assert(lex_le(old_views[a - 1], old_views[b - 1]));
                }
            }
            assert forall|j: int| 0 <= j < keys@.len() implies #[trigger] keys@[j]@ == out@[j]@ by {
                if j < p {
                } else if j > p {
                    assert(keys@[j] == old_keys[j - 1]);
                }
            }
        }
        i += 1;
    }
    assert(paths@.take(i as int) =~= paths@);
    out
}

/// One entry of a directory walk: its path, its depth below the root (the
/// root itself is at depth 0), and whether it is a regular file.
pub struct WalkEntry {
    pub path: String,
    pub depth: usize,
    pub is_file: bool,
}

/// Whether an entry is an image to analyse: an image file, and a direct
/// child of the root unless the walk is recursive.
pub open spec fn is_candidate(e: WalkEntry, recursive: bool) -> bool {
    &&& e.is_file
    &&& recursive || e.depth <= 1
    &&& is_image_path_spec(e.path@)
}

pub open spec fn candidate_paths(entries: Seq<WalkEntry>, recursive: bool) -> Seq<Seq<char>>
    decreases entries.len(),
{
    if entries.len() == 0 {
        seq![]
    } else {
        let rest = candidate_paths(entries.drop_last(), recursive);
        if is_candidate(entries.last(), recursive) {
            rest.push(entries.last().path@)
        } else {
            rest
        }
    }
}

/// The image files among the entries of a walk, sorted lexicographically so
/// that runs over an unchanged directory agree: with `recursive` false only
/// the root's direct children count.
pub fn enumerate_images(entries: Vec<WalkEntry>, recursive: bool) -> (r: Vec<String>)
    ensures
        sorted_lex(views(r@)),
        views(r@).to_multiset() == candidate_paths(entries@, recursive).to_multiset(),
{
    sort_paths(candidates_in_walk_order(entries, recursive))
}

fn candidates_in_walk_order(entries: Vec<WalkEntry>, recursive: bool) -> (r: Vec<String>)
    ensures
        views(r@) == candidate_paths(entries@, recursive),
{
    let mut out: Vec<String> = Vec::new();
    let mut i: usize = 0;
    while i < entries.len()
        invariant
            i <= entries.len(),
            views(out@) == candidate_paths(entries@.take(i as int), recursive),
        decreases entries.len() - i,
    {
        assert(entries@.take(i + 1).drop_last() =~= entries@.take(i as int));
        let e = &entries[i];
        if e.is_file && (recursive || e.depth <= 1) && is_image_path(e.path.as_str()) {
            let p = e.path.clone();
            assert(views(out@.push(p)) =~= views(out@).push(p@));
            out.push(p);
        }
        i += 1;
    }
    assert(entries@.take(i as int) =~= entries@);
    out
}

/// Each enumerated path is that of an image file of the walk which, unless the
/// walk is recursive, sits directly under the root.
pub proof fn lemma_enumerated_are_candidates(entries: Seq<WalkEntry>, recursive: bool, p: Seq<char>)
    requires
        candidate_paths(entries, recursive).contains(p),
    ensures
        exists|k: int|
            0 <= k < entries.len() && #[trigger] entries[k].path@ == p && entries[k].is_file && (
            recursive || entries[k].depth <= 1) && is_image_path_spec(p),
    decreases entries.len(),
{
    let rest = candidate_paths(entries.drop_last(), recursive);
    let n = entries.len() - 1;
    if is_candidate(entries.last(), recursive) && p == entries.last().path@ {
        assert(entries[n].path@ == p);
    } else {
        if is_candidate(entries.last(), recursive) {
            let j = choose|j: int| 0 <= j < rest.push(entries.last().path@).len() && rest.push(
                entries.last().path@,
            )[j] == p;
            assert(rest[j] == p);
        }
        assert(rest.contains(p));
        lemma_enumerated_are_candidates(entries.drop_last(), recursive, p);
        let k = choose|k: int|
            0 <= k < entries.drop_last().len() && #[trigger] entries.drop_last()[k].path@ == p
                && entries.drop_last()[k].is_file && (recursive || entries.drop_last()[k].depth <= 1)
                && is_image_path_spec(p);
        assert(entries[k] == entries.drop_last()[k]);
    }
}

/// Every image file of the walk is enumerated when the walk is recursive, and
/// every one directly under the root otherwise.
pub proof fn lemma_candidates_are_enumerated(entries: Seq<WalkEntry>, recursive: bool, k: int)
    requires
        0 <= k < entries.len(),
        is_candidate(entries[k], recursive),
    ensures
        candidate_paths(entries, recursive).contains(entries[k].path@),
    decreases entries.len(),
{
    let rest = candidate_paths(entries.drop_last(), recursive);
    if k == entries.len() - 1 {
        assert(candidate_paths(entries, recursive).last() == entries[k].path@);
    } else {
        assert(entries.drop_last()[k] == entries[k]);
        lemma_candidates_are_enumerated(entries.drop_last(), recursive, k);
        let j = choose|j: int| 0 <= j < rest.len() && rest[j] == entries[k].path@;
        if is_candidate(entries.last(), recursive) {
            assert(rest.push(entries.last().path@)[j] == entries[k].path@);
        }
    }
}

} // verus!
