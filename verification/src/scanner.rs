//! Brace scanner: locates the next active (unescaped) left or right curly
//! brace of a message by counting the parity of runs of consecutive braces.
//!
//! A run of braces of even length is escaped literal text and contains no
//! active brace. A run of odd length contains exactly one active brace: the
//! last brace of the run for left braces (the opening delimiter sits next to
//! the content that follows it), the first brace of the run for right braces
//! (the closing delimiter sits next to the content that precedes it).
//!
//! All positions are character indices, never byte offsets, so the scanner is
//! well defined on multi-byte text.

use vstd::prelude::*;

verus! {

/// Index of the first occurrence of `c` at or after `from`, if any.
pub open spec fn find_char(s: Seq<char>, from: int, c: char) -> Option<int>
    decreases s.len() - from,
{
    if from < 0 || from >= s.len() {
        None
    } else if s[from] == c {
        Some(from)
    } else {
        find_char(s, from + 1, c)
    }
}

/// End of the run of `c` characters starting at `i`: the first index at or
/// after `i` that is past the end of the string or holds another character.
pub open spec fn run_end(s: Seq<char>, i: int, c: char) -> int
    decreases s.len() - i,
{
    if i < 0 || i >= s.len() || s[i] != c {
        i
    } else {
        run_end(s, i + 1, c)
    }
}

pub proof fn lemma_find_char(s: Seq<char>, from: int, c: char)
    requires
        0 <= from,
    ensures
        match find_char(s, from, c) {
            Some(i) => from <= i < s.len() && s[i] == c
                && (forall|j: int| from <= j < i ==> s[j] != c),
            None => forall|j: int| from <= j < s.len() ==> s[j] != c,
        },
    decreases s.len() - from,
{
    if from < s.len() && s[from] != c {
        lemma_find_char(s, from + 1, c);
    }
}

pub proof fn lemma_run_end(s: Seq<char>, i: int, c: char)
    requires
        0 <= i <= s.len(),
    ensures
        i <= run_end(s, i, c) <= s.len(),
        forall|j: int| i <= j < run_end(s, i, c) ==> s[j] == c,
        run_end(s, i, c) < s.len() ==> s[run_end(s, i, c)] != c,
    decreases s.len() - i,
{
    if i < s.len() && s[i] == c {
        lemma_run_end(s, i + 1, c);
    }
}

/// Position of the first active left brace at or after `from`: the last brace
/// of the first odd-length run of consecutive left braces; even runs are
/// skipped as escaped text.
pub open spec fn active_open(s: Seq<char>, from: int) -> Option<int>
    decreases s.len() - from,
{
    match find_char(s, from, '{') {
        None => None,
        Some(i) => {
            let e = run_end(s, i + 1, '{');
            if (e - i) % 2 == 1 {
                Some(e - 1)
            } else {
                proof {
                    lemma_find_char(s, from, '{');
                    lemma_run_end(s, i + 1, '{');
                }
                active_open(s, e)
            }
        },
    }
}

/// Position of the first active right brace at or after `from`: the first
/// brace of the first odd-length run of consecutive right braces; even runs
/// are skipped as escaped text.
pub open spec fn active_close(s: Seq<char>, from: int) -> Option<int>
    decreases s.len() - from,
{
    match find_char(s, from, '}') {
        None => None,
        Some(i) => {
            let e = run_end(s, i + 1, '}');
            if (e - i) % 2 == 1 {
                Some(i)
            } else {
                proof {
                    lemma_find_char(s, from, '}');
                    lemma_run_end(s, i + 1, '}');
                }
                active_close(s, e)
            }
        },
    }
}

pub proof fn lemma_active_open_bounds(s: Seq<char>, from: int)
    requires
        0 <= from,
    ensures
        match active_open(s, from) {
            Some(p) => from <= p < s.len() && s[p] == '{',
            None => true,
        },
    decreases s.len() - from,
{
    match find_char(s, from, '{') {
        None => {}
        Some(i) => {
            lemma_find_char(s, from, '{');
            lemma_run_end(s, i + 1, '{');
            let e = run_end(s, i + 1, '{');
            if (e - i) % 2 != 1 {
                lemma_active_open_bounds(s, e);
            }
        },
    }
}

pub proof fn lemma_active_close_bounds(s: Seq<char>, from: int)
    requires
        0 <= from,
    ensures
        match active_close(s, from) {
            Some(p) => from <= p < s.len() && s[p] == '}',
            None => true,
        },
    decreases s.len() - from,
{
    match find_char(s, from, '}') {
        None => {}
        Some(i) => {
            lemma_find_char(s, from, '}');
            lemma_run_end(s, i + 1, '}');
            let e = run_end(s, i + 1, '}');
            if (e - i) % 2 != 1 {
                lemma_active_close_bounds(s, e);
            }
        },
    }
}

/// First occurrence of `c` at or after `from`, as executable code.
fn find_brace(s: &str, from: usize, c: char) -> (r: Option<usize>)
    ensures
        match r {
            Some(i) => find_char(s@, from as int, c) == Some(i as int),
            None => find_char(s@, from as int, c) is None,
        },
{
    let n = s.unicode_len();
    let mut i = from;
    while i < n
        invariant
            n == s@.len(),
            from <= i,
            find_char(s@, from as int, c) == find_char(s@, i as int, c),
        decreases n - i,
    {
        if s.get_char(i) == c {
            return Some(i);
        }
        i = i + 1;
    }
    None
}

/// End of the run of `c` characters starting at `start`, as executable code.
fn brace_run_end(s: &str, start: usize, c: char) -> (r: usize)
    requires
        start <= s@.len(),
    ensures
        r == run_end(s@, start as int, c),
        start <= r <= s@.len(),
{
    let n = s.unicode_len();
    let mut i = start;
    while i < n && s.get_char(i) == c
        invariant
            n == s@.len(),
            start <= i <= n,
            run_end(s@, start as int, c) == run_end(s@, i as int, c),
        decreases n - i,
    {
        i = i + 1;
    }
    i
}

fn scan_open(s: &str, checkpoint: usize) -> (r: Option<usize>)
    ensures
        match r {
            Some(i) => active_open(s@, checkpoint as int) == Some(i as int),
            None => active_open(s@, checkpoint as int) is None,
        },
{
    let n = s.unicode_len();
    let mut from = checkpoint;
    if from >= n {
        return None;
    }
    loop
        invariant
            n == s@.len(),
            from <= n,
            active_open(s@, checkpoint as int) == active_open(s@, from as int),
        decreases n - from,
    {
        match find_brace(s, from, '{') {
            None => {
                return None;
            }
            Some(i) => {
                proof {
                    lemma_find_char(s@, from as int, '{');
                    lemma_run_end(s@, i + 1, '{');
                }
                let e = brace_run_end(s, i + 1, '{');
                if (e - i) % 2 == 1 {
                    return Some(e - 1);
                } else {
                    from = e;
                }
            }
        }
    }
}

fn scan_close(s: &str, checkpoint: usize) -> (r: Option<usize>)
    ensures
        match r {
            Some(i) => active_close(s@, checkpoint as int) == Some(i as int),
            None => active_close(s@, checkpoint as int) is None,
        },
{
    let n = s.unicode_len();
    let mut from = checkpoint;
    if from >= n {
        return None;
    }
    loop
        invariant
            n == s@.len(),
            from <= n,
            active_close(s@, checkpoint as int) == active_close(s@, from as int),
        decreases n - from,
    {
        match find_brace(s, from, '}') {
            None => {
                return None;
            }
            Some(i) => {
                proof {
                    lemma_find_char(s@, from as int, '}');
                    lemma_run_end(s@, i + 1, '}');
                }
                let e = brace_run_end(s, i + 1, '}');
                if (e - i) % 2 == 1 {
                    return Some(i);
                } else {
                    from = e;
                }
            }
        }
    }
}

/// Returns the character index of the first active left curly brace at or
/// after `checkpoint`: a single left brace, or the last brace of an
/// odd-length run of consecutive left braces.
pub fn active_left_brace(msg: &String, checkpoint: usize) -> (r: Option<usize>)
    ensures
        match r {
            Some(i) => active_open(msg@, checkpoint as int) == Some(i as int),
            None => active_open(msg@, checkpoint as int) is None,
        },
{
    scan_open(msg.as_str(), checkpoint)
}

/// Returns the character index of the first active right curly brace at or
/// after `checkpoint`: a single right brace, or the first brace of an
/// odd-length run of consecutive right braces.
pub fn active_right_brace(msg: &String, checkpoint: usize) -> (r: Option<usize>)
    ensures
        match r {
            Some(i) => active_close(msg@, checkpoint as int) == Some(i as int),
            None => active_close(msg@, checkpoint as int) is None,
        },
{
    scan_close(msg.as_str(), checkpoint)
}

/// Returns the character index of the first active left curly brace at or
/// after `start`, which is either a single left brace or the last left curly
/// brace in an odd-length sequence of consecutive left curly braces.
pub fn find_active_left_brace(msg: &str, start: usize) -> (r: Option<usize>)
    ensures
        match r {
            Some(i) => active_open(msg@, start as int) == Some(i as int),
            None => active_open(msg@, start as int) is None,
        },
{
    scan_open(msg, start)
}

/// Returns the character index of the first active right curly brace at or
/// after `start`, which is either a single right brace or the first right
/// curly brace in an odd-length sequence of consecutive right curly braces.
pub fn find_active_right_brace(msg: &str, start: usize) -> (r: Option<usize>)
    ensures
        match r {
            Some(i) => active_close(msg@, start as int) == Some(i as int),
            None => active_close(msg@, start as int) is None,
        },
{
    scan_close(msg, start)
}

} // verus!
