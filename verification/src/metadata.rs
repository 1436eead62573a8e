use vstd::prelude::*;

verus! {

/// The five characters that open a metadata block.
pub open spec fn open_marker() -> Seq<char> {
    seq!['/', '*', '-', '-', '-']
}

/// The five characters that close a metadata block.
pub open spec fn close_marker() -> Seq<char> {
    seq!['-', '-', '-', '*', '/']
}

/// `p` occurs in `t` starting at position `i`.
pub open spec fn matches_at(t: Seq<char>, p: Seq<char>, i: int) -> bool {
    &&& 0 <= i
    &&& i + p.len() <= t.len()
    &&& forall|j: int| 0 <= j < p.len() ==> t[i + j] == p[j]
}

/// `p` occurs somewhere in `t`.
pub open spec fn has_pattern(t: Seq<char>, p: Seq<char>) -> bool {
    exists|i: int| matches_at(t, p, i)
}

/// `p` occurs at `i` and nowhere earlier: `i` is the leftmost occurrence.
pub open spec fn found_at(t: Seq<char>, p: Seq<char>, i: int) -> bool {
    &&& matches_at(t, p, i)
    &&& forall|k: int| 0 <= k < i ==> !matches_at(t, p, k)
}

/// The position of the leftmost occurrence of `p` in `t` (meaningful only when
/// `has_pattern(t, p)`).
pub open spec fn first_ix(t: Seq<char>, p: Seq<char>) -> int {
    choose|i: int| found_at(t, p, i)
}

/// A leftmost occurrence is unique.
pub proof fn lemma_found_at_unique(t: Seq<char>, p: Seq<char>, i: int, j: int)
    requires
        found_at(t, p, i),
        found_at(t, p, j),
    ensures
        i == j,
{
    if i < j {
        assert(!matches_at(t, p, i));
    }
    if j < i {
        assert(!matches_at(t, p, j));
    }
}

/// The file has no metadata block at all.
pub open spec fn no_block(t: Seq<char>) -> bool {
    !has_pattern(t, open_marker())
}

/// An open marker without a close marker after its end: the block cannot be
/// read. (Both markers are located by their leftmost occurrence.)
pub open spec fn malformed_block(t: Seq<char>) -> bool {
    &&& has_pattern(t, open_marker())
    &&& (!has_pattern(t, close_marker()) || first_ix(t, close_marker()) < first_ix(
        t,
        open_marker(),
    ) + 5)
}

/// A readable block: both markers occur, the leftmost close marker no earlier
/// than the end of the leftmost open marker.
pub open spec fn good_block(t: Seq<char>) -> bool {
    &&& has_pattern(t, open_marker())
    &&& has_pattern(t, close_marker())
    &&& first_ix(t, open_marker()) + 5 <= first_ix(t, close_marker())
}

/// The text standing between the two markers of a readable block.
pub open spec fn block_interior(t: Seq<char>) -> Seq<char> {
    t.subrange(first_ix(t, open_marker()) + 5, first_ix(t, close_marker()))
}

/// What scanning a file's text for a metadata block found.
#[derive(Debug, Clone, PartialEq, Eq)]
pub enum Frontmatter {
    /// No open marker anywhere: the file simply has no metadata.
    NoMetadata,
    /// An open marker, but no close marker where one could end the block.
    Malformed,
    /// The block's interior, markers stripped.
    Block(String),
}

/// Whether `p` occurs in `t` starting exactly at `i`.
fn matches_prefix_at(text: &str, pat: &str, i: usize) -> (b: bool)
    requires
        i + pat@.len() <= text@.len(),
        text@.len() <= usize::MAX,
    ensures
        b == matches_at(text@, pat@, i as int),
{
    let m = pat.unicode_len();
    let mut j: usize = 0;
    while j < m
        invariant
            m == pat@.len(),
            i + m <= text@.len(),
            text@.len() <= usize::MAX,
            j <= m,
            forall|l: int| 0 <= l < j ==> text@[i + l] == pat@[l],
        decreases m - j,
    {
        if text.get_char(i + j) != pat.get_char(j) {
            assert(!matches_at(text@, pat@, i as int)) by {
                assert(text@[i + j as int] != pat@[j as int]);
            }
            return false;
        }
        j += 1;
    }
    true
}

/// The leftmost occurrence of `pat` in `text`, scanning left to right.
pub fn find_marker(text: &str, pat: &str) -> (r: Option<usize>)
    ensures
        match r {
            Some(i) => found_at(text@, pat@, i as int),
            None => !has_pattern(text@, pat@),
        },
{
    let n = text.unicode_len();
    let m = pat.unicode_len();
    if m > n {
        assert(!has_pattern(text@, pat@)) by {
            assert(forall|i: int| !matches_at(text@, pat@, i));
        }
        return None;
    }
    let mut i: usize = 0;
    while i <= n - m
        invariant
            n == text@.len(),
            m == pat@.len(),
            m <= n,
            i <= n - m + 1,
            forall|k: int| 0 <= k < i ==> !matches_at(text@, pat@, k),
        decreases n - m + 1 - i,
    {
        if matches_prefix_at(text, pat, i) {
            return Some(i);
        }
        i += 1;
    }
    assert(!has_pattern(text@, pat@)) by {
        assert(forall|k: int| matches_at(text@, pat@, k) ==> 0 <= k <= n - m);
    }
    None
}

/// Scan a file's full text for its metadata block: the text between the
/// leftmost `/*---` and the leftmost `---*/`.
pub fn extract_frontmatter(text: &str) -> (r: Frontmatter)
    ensures
        (r is NoMetadata) <==> no_block(text@),
        (r is Malformed) <==> malformed_block(text@),
        (r is Block) <==> good_block(text@),
        r matches Frontmatter::Block(b) ==> b@ == block_interior(text@),
{
    let n = text.unicode_len();
    let open_pat = "/*---";
    let close_pat = "---*/";
    proof {
        reveal_strlit("/*---");
        reveal_strlit("---*/");
        assert(open_pat@ =~= open_marker());
        assert(close_pat@ =~= close_marker());
    }
    match find_marker(text, open_pat) {
        None => Frontmatter::NoMetadata,
        Some(s) => {
            proof {
                assert(found_at(text@, open_marker(), s as int));
                assert(found_at(text@, open_marker(), first_ix(text@, open_marker())));
                lemma_found_at_unique(
                    text@,
                    open_marker(),
                    first_ix(text@, open_marker()),
                    s as int,
                );
            }
            match find_marker(text, close_pat) {
                None => Frontmatter::Malformed,
                Some(e) => {
                    proof {
                        assert(found_at(text@, close_marker(), e as int));
                        assert(found_at(text@, close_marker(), first_ix(text@, close_marker())));
                        lemma_found_at_unique(
                            text@,
                            close_marker(),
                            first_ix(text@, close_marker()),
                            e as int,
                        );
                    }
                    if s + 5 <= e {
                        let sub = text.substring_char(s + 5, e);
                        Frontmatter::Block(sub.to_owned())
                    } else {
                        Frontmatter::Malformed
                    }
                },
            }
        },
    }
}

} // verus!
