//! Slash-separated request paths and link targets: splitting a path into
//! segments, joining segments back, and rewriting relative link targets to be
//! reference-relative.

use vstd::prelude::*;

verus! {

/// The segments of a slash-separated path: what stands before the first `/`,
/// followed by the segments of what stands after it. A text without `/` is a
/// single segment, so the result is never empty.
pub open spec fn split_segs(s: Seq<char>) -> Seq<Seq<char>>
    decreases s.len(),
    via split_segs_decreases
{
    match s.index_of_first('/') {
        Some(i) => seq![s.subrange(0, i)] + split_segs(s.subrange(i + 1, s.len() as int)),
        None => seq![s],
    }
}

#[via_fn]
proof fn split_segs_decreases(s: Seq<char>) {
    s.index_of_first_ensures('/');
}

/// Segments joined with `/` between each two.
pub open spec fn join_segs(segs: Seq<Seq<char>>) -> Seq<char>
    decreases segs.len(),
{
    if segs.len() == 0 {
        Seq::empty()
    } else if segs.len() == 1 {
        segs[0]
    } else {
        segs[0] + seq!['/'] + join_segs(segs.drop_first())
    }
}

/// `p` is a prefix of `s`.
pub open spec fn starts_with(s: Seq<char>, p: Seq<char>) -> bool {
    p.len() <= s.len() && s.subrange(0, p.len() as int) == p
}

/// `p` is a suffix of `s`.
pub open spec fn ends_with(s: Seq<char>, p: Seq<char>) -> bool {
    p.len() <= s.len() && s.subrange(s.len() - p.len(), s.len() as int) == p
}

proof fn lemma_index_of_first_at(s: Seq<char>, i: int)
    requires
        0 <= i < s.len(),
        s[i] == '/',
        forall|j: int| 0 <= j < i ==> s[j] != '/',
    ensures
        s.index_of_first('/') == Some(i),
{
    s.index_of_first_ensures('/');
    match s.index_of_first('/') {
        Some(k) => {
            if k < i {
                assert(s[k] != '/');
            } else if k > i {
                assert(s[i] != '/');
            }
        },
        None => {
            assert(s[i] != '/');
        },
    }
}

proof fn lemma_index_of_first_none(s: Seq<char>)
    requires
        forall|j: int| 0 <= j < s.len() ==> s[j] != '/',
    ensures
        s.index_of_first('/') == Option::<int>::None,
{
    s.index_of_first_ensures('/');
    match s.index_of_first('/') {
        Some(k) => {
            assert(s[k] != '/');
        },
        None => {},
    }
}

/// Splits a path into its `/`-separated segments.
pub fn split_path(s: &str) -> (r: Vec<String>)
    ensures
        r@.map_values(|t: String| t@) == split_segs(s@),
        r@.len() > 0,
{
    let n: usize = s.unicode_len();
    let mut r: Vec<String> = Vec::new();
    let mut seg_start: usize = 0;
    let mut i: usize = 0;
    proof {
        assert(s@.subrange(0, n as int) =~= s@);
        assert(r@.map_values(|t: String| t@) =~= Seq::<Seq<char>>::empty());
    }
    while i < n
        invariant
            seg_start <= i <= n,
            n == s@.len(),
            forall|j: int| seg_start <= j < i ==> s@[j] != '/',
            split_segs(s@) =~= r@.map_values(|t: String| t@) + split_segs(
                s@.subrange(seg_start as int, n as int),
            ),
        decreases n - i,
    {
        if s.get_char(i) == '/' {
            let seg = s.substring_char(seg_start, i).to_owned();
            proof {
                let sub = s@.subrange(seg_start as int, n as int);
                assert(sub[i - seg_start] == '/');
                assert(forall|j: int| 0 <= j < i - seg_start ==> sub[j] != '/');
                lemma_index_of_first_at(sub, i - seg_start);
                assert(sub.subrange(0, i - seg_start) =~= s@.subrange(seg_start as int, i as int));
                assert(sub.subrange(i - seg_start + 1, sub.len() as int) =~= s@.subrange(
                    i + 1,
                    n as int,
                ));
                assert(r@.push(seg).map_values(|t: String| t@) =~= r@.map_values(|t: String| t@)
                    + seq![seg@]);
            }
            r.push(seg);
            seg_start = i + 1;
        }
        i += 1;
    }
    let last = s.substring_char(seg_start, n).to_owned();
    proof {
        let sub = s@.subrange(seg_start as int, n as int);
        lemma_index_of_first_none(sub);
        assert(split_segs(sub) =~= seq![sub]);
        assert(r@.push(last).map_values(|t: String| t@) =~= r@.map_values(|t: String| t@)
            + seq![last@]);
        assert(r@.map_values(|t: String| t@) + seq![sub] =~= r@.push(last).map_values(
            |t: String| t@,
        ));
    }
    r.push(last);
    proof {
        assert(r@.map_values(|t: String| t@) =~~= split_segs(s@));
    }
    r
}

/// Splitting undoes joining: a path assembled from slash-free segments splits
/// back into exactly those segments.
pub proof fn lemma_split_join(segs: Seq<Seq<char>>)
    requires
        segs.len() > 0,
        forall|k: int| 0 <= k < segs.len() ==> !(#[trigger] segs[k]).contains('/'),
    ensures
        split_segs(join_segs(segs)) == segs,
    decreases segs.len(),
{
    let joined = join_segs(segs);
    if segs.len() == 1 {
        assert(joined == segs[0]);
        assert(forall|j: int| 0 <= j < joined.len() ==> joined[j] != '/') by {
            assert(!segs[0].contains('/'));
        }
        lemma_index_of_first_none(joined);
        assert(split_segs(joined) =~~= seq![segs[0]]);
        assert(seq![segs[0]] =~~= segs);
    } else {
        let head = segs[0];
        let rest = segs.drop_first();
        assert(joined == head + seq!['/'] + join_segs(rest));
        assert(forall|j: int| 0 <= j < head.len() ==> joined[j] != '/') by {
            assert(!segs[0].contains('/'));
            assert(forall|j: int| 0 <= j < head.len() ==> joined[j] == head[j]);
        }
        assert(joined[head.len() as int] == '/');
        lemma_index_of_first_at(joined, head.len() as int);
        assert(joined.subrange(0, head.len() as int) =~= head);
        assert(joined.subrange(head.len() as int + 1, joined.len() as int) =~= join_segs(rest));
        assert(forall|k: int| 0 <= k < rest.len() ==> !(#[trigger] rest[k]).contains('/')) by {
            assert(forall|k: int|
                0 <= k < rest.len() ==> rest[k] == segs[k + 1] && !segs[k + 1].contains('/'));
        }
        lemma_split_join(rest);
        assert(split_segs(joined) =~~= seq![head] + rest);
        assert(seq![head] + rest =~~= segs);
    }
}

/// The reference name in a request location: what stands before the first
/// `/`, or the whole location when it has none.
pub open spec fn location_ref(loc: Seq<char>) -> Seq<char> {
    match loc.index_of_first('/') {
        Some(i) => loc.subrange(0, i),
        None => loc,
    }
}

/// The in-repository path in a request location: what stands after the
/// first `/`, or the empty path when it has none.
pub open spec fn location_path(loc: Seq<char>) -> Seq<char> {
    match loc.index_of_first('/') {
        Some(i) => loc.subrange(i + 1, loc.len() as int),
        None => Seq::empty(),
    }
}

/// Splits a request location `<refname>/<path>` at its first slash into the
/// reference name and the in-repository path.
pub fn split_location(loc: &str) -> (r: (String, String))
    ensures
        r.0@ == location_ref(loc@),
        r.1@ == location_path(loc@),
{
    let n: usize = loc.unicode_len();
    let mut i: usize = 0;
    while i < n
        invariant
            i <= n,
            n == loc@.len(),
            forall|j: int| 0 <= j < i ==> loc@[j] != '/',
        decreases n - i,
    {
        if loc.get_char(i) == '/' {
            proof {
                lemma_index_of_first_at(loc@, i as int);
            }
            return (loc.substring_char(0, i).to_owned(), loc.substring_char(i + 1, n).to_owned());
        }
        i += 1;
    }
    proof {
        lemma_index_of_first_none(loc@);
    }
    (loc.to_owned(), String::new())
}

/// The fully qualified form of a reference: its kind's namespace and its
/// short name under `refs/`.
pub fn qualify_ref(ref_type: &str, ref_name: &str) -> (r: String)
    ensures
        r@ == "refs/"@ + ref_type@ + "/"@ + ref_name@,
{
    let mut r: String = "refs/".to_owned();
    r.append(ref_type);
    r.append("/");
    r.append(ref_name);
    r
}

/// `p` is a prefix of `s`.
pub fn str_starts_with(s: &str, p: &str) -> (r: bool)
    ensures
        r == starts_with(s@, p@),
{
    let sn: usize = s.unicode_len();
    let pn: usize = p.unicode_len();
    if pn > sn {
        return false;
    }
    let mut i: usize = 0;
    while i < pn
        invariant
            i <= pn <= sn,
            sn == s@.len(),
            pn == p@.len(),
            forall|j: int| 0 <= j < i ==> s@[j] == p@[j],
        decreases pn - i,
    {
        if s.get_char(i) != p.get_char(i) {
            proof {
                assert(s@.subrange(0, pn as int)[i as int] != p@[i as int]);
            }
            return false;
        }
        i += 1;
    }
    proof {
        assert(s@.subrange(0, pn as int) =~= p@);
    }
    true
}

/// `p` is a suffix of `s`.
pub fn str_ends_with(s: &str, p: &str) -> (r: bool)
    ensures
        r == ends_with(s@, p@),
{
    let sn: usize = s.unicode_len();
    let pn: usize = p.unicode_len();
    if pn > sn {
        return false;
    }
    let off: usize = sn - pn;
    let mut i: usize = 0;
    while i < pn
        invariant
            i <= pn <= sn,
            off == sn - pn,
            sn == s@.len(),
            pn == p@.len(),
            forall|j: int| 0 <= j < i ==> s@[off + j] == p@[j],
        decreases pn - i,
    {
        if s.get_char(off + i) != p.get_char(i) {
            proof {
                assert(s@.subrange(off as int, sn as int)[i as int] != p@[i as int]);
            }
            return false;
        }
        i += 1;
    }
    proof {
        assert(s@.subrange(off as int, sn as int) =~= p@);
    }
    true
}

/// A name that the renderer treats as Markdown: longer than the `.md` suffix
/// it ends with, so that a bare `.md` (an extensionless dot-file) is not one.
pub open spec fn is_markdown_name(name: Seq<char>) -> bool {
    name.len() > ".md"@.len() && ends_with(name, ".md"@)
}

/// Decides whether a file name is rendered as Markdown.
pub fn name_is_markdown(name: &str) -> (r: bool)
    ensures
        r == is_markdown_name(name@),
{
    let n: usize = name.unicode_len();
    proof {
        reveal_strlit(".md");
    }
    if n <= 3 {
        return false;
    }
    str_ends_with(name, ".md")
}

/// A link target without its leading `/`, if it has one.
pub open spec fn strip_leading_slash(u: Seq<char>) -> Seq<char> {
    if u.len() > 0 && u[0] == '/' {
        u.subrange(1, u.len() as int)
    } else {
        u
    }
}

/// Where a link target points once it is served under a reference: in-page
/// anchors (`#...`) and absolute `https://` targets stay as they are; every
/// other target is made reference-relative under `/branch/<refname>/`.
pub open spec fn rewrite_url(u: Seq<char>, refname: Seq<char>) -> Seq<char> {
    if starts_with(u, "#"@) || starts_with(u, "https://"@) {
        u
    } else {
        "/branch/"@ + refname + "/"@ + strip_leading_slash(u)
    }
}

/// Rewrites one link target to be reference-relative.
pub fn rewrite_link_target(url: &str, ref_name: &str) -> (r: String)
    ensures
        r@ == rewrite_url(url@, ref_name@),
{
    if str_starts_with(url, "#") || str_starts_with(url, "https://") {
        return url.to_owned();
    }
    let mut out: String = "/branch/".to_owned();
    out.append(ref_name);
    out.append("/");
    let n: usize = url.unicode_len();
    if n > 0 && url.get_char(0) == '/' {
        let stripped = url.substring_char(1, n);
        out.append(stripped);
    } else {
        out.append(url);
    }
    out
}

} // verus!
