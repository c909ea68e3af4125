//! Character-level text helpers: first-line previews and the trailing
//! whitespace trimming policy applied to editor output.

use vstd::prelude::*;

verus! {

/// The length of the prefix of `d` that lies before its first newline.
pub open spec fn line_len(d: Seq<char>) -> nat
    decreases d.len(),
{
    if d.len() == 0 || d[0] == '\n' {
        0
    } else {
        1 + line_len(d.subrange(1, d.len() as int))
    }
}

/// The first line stops at the first newline, or at the end.
pub proof fn lemma_line_len(d: Seq<char>)
    ensures
        line_len(d) <= d.len(),
        forall|j: int| 0 <= j < line_len(d) ==> #[trigger] d[j] != '\n',
        line_len(d) < d.len() ==> d[line_len(d) as int] == '\n',
    decreases d.len(),
{
    if d.len() == 0 || d[0] == '\n' {
    } else {
        let t = d.subrange(1, d.len() as int);
        lemma_line_len(t);
        assert forall|j: int| 0 <= j < line_len(d) implies #[trigger] d[j] != '\n' by {
            if j >= 1 {
                assert(d[j] == t[j - 1]);
            }
        }
        if line_len(d) < d.len() {
            assert(d[line_len(d) as int] == t[line_len(t) as int]);
        }
    }
}

/// Any cut of `d` with no newline before it and a newline (or the end)
/// at it is the first line's length.
pub proof fn lemma_line_len_unique(d: Seq<char>, k: nat)
    requires
        k <= d.len(),
        forall|j: int| 0 <= j < k ==> #[trigger] d[j] != '\n',
        k < d.len() ==> d[k as int] == '\n',
    ensures
        line_len(d) == k,
    decreases d.len(),
{
    lemma_line_len(d);
    if d.len() == 0 || d[0] == '\n' {
    } else {
        let t = d.subrange(1, d.len() as int);
        assert(k >= 1);
        assert forall|j: int| 0 <= j < k - 1 implies #[trigger] t[j] != '\n' by {
            assert(t[j] == d[j + 1]);
        }
        if k - 1 < t.len() {
            assert(t[k - 1] == d[k as int]);
        }
        lemma_line_len_unique(t, (k - 1) as nat);
    }
}

/// How many characters of a description the overview shows: the first
/// line, cut off after forty characters.
pub open spec fn preview_len(d: Seq<char>) -> nat {
    if line_len(d) <= 40 {
        line_len(d)
    } else {
        40
    }
}

/// The deterministic one-line preview of a description.
pub open spec fn preview(d: Seq<char>) -> Seq<char> {
    d.subrange(0, preview_len(d) as int)
}

/// Computes the preview of a description at run time.
pub fn preview_exec(d: &str) -> (r: &str)
    ensures
        r@ == preview(d@),
{
    let n = d.unicode_len();
    let mut k: usize = 0;
    while k < n && k < 40 && d.get_char(k) != '\n'
        invariant
            k <= n,
            k <= 40,
            n == d@.len(),
            forall|j: int| 0 <= j < k ==> #[trigger] d@[j] != '\n',
        decreases n - k,
    {
        k = k + 1;
    }
    proof {
        if k < 40 {
            // the scan stopped at the end or at a newline: `k` is the
            // first line's length, and it is what the preview keeps
            lemma_line_len_unique(d@, k as nat);
        } else {
            // the scan stopped at the cut-off: the first line runs at
            // least this far
            lemma_line_len(d@);
            if line_len(d@) < k {
                assert(d@[line_len(d@) as int] == '\n');
            }
        }
        assert(preview_len(d@) == k);
    }
    d.substring_char(0, k)
}

/// Whitespace that the trimming policy removes from the end of editor
/// output: spaces, tabs, carriage returns and newlines.
pub open spec fn is_trim_ws(c: char) -> bool {
    c == ' ' || c == '\t' || c == '\r' || c == '\n'
}

/// `d` without its trailing whitespace.
pub open spec fn trimmed_end(d: Seq<char>) -> Seq<char>
    decreases d.len(),
{
    if d.len() == 0 || !is_trim_ws(d.last()) {
        d
    } else {
        trimmed_end(d.drop_last())
    }
}

fn is_trim_ws_exec(c: char) -> (r: bool)
    ensures
        r == is_trim_ws(c),
{
    c == ' ' || c == '\t' || c == '\r' || c == '\n'
}

/// Removes trailing whitespace from raw editor output. This is the one
/// trimming policy, applied to new and to edited descriptions alike.
pub fn trim_trailing(s: &str) -> (r: String)
    ensures
        r@ == trimmed_end(s@),
{
    let n = s.unicode_len();
    let mut k: usize = n;
    proof {
        assert(s@.subrange(0, n as int) =~= s@);
    }
    while k > 0 && is_trim_ws_exec(s.get_char(k - 1))
        invariant
            k <= n,
            n == s@.len(),
            trimmed_end(s@) == trimmed_end(s@.subrange(0, k as int)),
        decreases k,
    {
        proof {
            let p = s@.subrange(0, k as int);
            assert(p.drop_last() =~= s@.subrange(0, k - 1));
        }
        k = k - 1;
    }
    proof {
        let p = s@.subrange(0, k as int);
        if k == 0 {
            assert(p =~= Seq::<char>::empty());
        }
        assert(trimmed_end(p) == p);
    }
    let r = s.substring_char(0, k);
    r.to_owned()
}

} // verus!
