//! Template formatter: rewrites a message into its normalized form, where
//! every active placeholder is replaced by a generic positional marker
//! (`{placeholder0}`, `{placeholder1}`, ...), and collects the raw expression
//! each marker stands for, in left-to-right discovery order.
//!
//! The rewrite is total: unbalanced braces absorb the intervening text as the
//! argument instead of failing, and an unmatched active brace stands for
//! itself (the single character `{` or `}`) in the extracted arguments.

use vstd::prelude::*;

use crate::scanner::{
    active_close, active_open, find_active_left_brace, find_active_right_brace,
    lemma_active_close_bounds, lemma_active_open_bounds,
};

verus! {

/// The decimal digit character for `d`.
pub open spec fn digit_char(d: nat) -> char {
    if d == 0 {
        '0'
    } else if d == 1 {
        '1'
    } else if d == 2 {
        '2'
    } else if d == 3 {
        '3'
    } else if d == 4 {
        '4'
    } else if d == 5 {
        '5'
    } else if d == 6 {
        '6'
    } else if d == 7 {
        '7'
    } else if d == 8 {
        '8'
    } else {
        '9'
    }
}

/// Decimal rendering of `n`, most significant digit first, no leading zeros.
pub open spec fn dec_str(n: nat) -> Seq<char>
    decreases n,
{
    if n < 10 {
        seq![digit_char(n)]
    } else {
        dec_str(n / 10).push(digit_char(n % 10))
    }
}

/// The generic positional marker for index `n`.
pub open spec fn marker(n: nat) -> Seq<char> {
    "{placeholder"@ + dec_str(n) + "}"@
}

fn digit_str(d: usize) -> (r: &'static str)
    requires
        d < 10,
    ensures
        r@ == seq![digit_char(d as nat)],
{
    proof {
        reveal_strlit("0");
        reveal_strlit("1");
        reveal_strlit("2");
        reveal_strlit("3");
        reveal_strlit("4");
        reveal_strlit("5");
        reveal_strlit("6");
        reveal_strlit("7");
        reveal_strlit("8");
        reveal_strlit("9");
    }
    let r = match d {
        0 => "0",
        1 => "1",
        2 => "2",
        3 => "3",
        4 => "4",
        5 => "5",
        6 => "6",
        7 => "7",
        8 => "8",
        _ => "9",
    };
    proof {
        assert(r@ =~= seq![digit_char(d as nat)]);
    }
    r
}

fn usize_to_string(n: usize) -> (r: String)
    ensures
        r@ == dec_str(n as nat),
    decreases n,
{
    if n < 10 {
        digit_str(n).to_owned()
    } else {
        let mut r = usize_to_string(n / 10);
        r.append(digit_str(n % 10));
        proof {
            assert(r@ =~= dec_str(n as nat));
        }
        r
    }
}

fn marker_string(n: usize) -> (r: String)
    ensures
        r@ == marker(n as nat),
{
    let mut r = String::from_str("{placeholder");
    let digits = usize_to_string(n);
    r.append(digits.as_str());
    r.append("}");
    proof {
        assert(r@ =~= marker(n as nat));
    }
    r
}

/// The normalized text produced from `s` onward from scan position `cp`, with
/// `pos` the index of the next marker to emit.
pub open spec fn formatted_from(s: Seq<char>, cp: int, pos: nat) -> Seq<char>
    decreases s.len() - cp,
{
    if cp < 0 || cp >= s.len() {
        Seq::empty()
    } else {
        match (active_open(s, cp), active_close(s, cp)) {
            (Some(o), Some(c)) => {
                proof {
                    lemma_active_open_bounds(s, cp);
                    lemma_active_close_bounds(s, cp);
                }
                if o < c {
                    s.subrange(cp, o) + marker(pos) + formatted_from(s, c + 1, pos + 1)
                } else {
                    s.subrange(cp, c) + marker(pos) + formatted_from(s, c + 1, pos + 1)
                }
            },
            (Some(o), None) => {
                proof {
                    lemma_active_open_bounds(s, cp);
                }
                s.subrange(cp, o) + marker(pos) + formatted_from(s, o + 1, pos + 1)
            },
            (None, Some(c)) => {
                proof {
                    lemma_active_close_bounds(s, cp);
                }
                s.subrange(cp, c) + marker(pos) + formatted_from(s, c + 1, pos + 1)
            },
            (None, None) => s.subrange(cp, s.len() as int),
        }
    }
}

/// The raw expressions extracted from `s` onward from scan position `cp`, in
/// discovery order: the content strictly between an active pair, or the
/// character the unmatched active brace stands for.
pub open spec fn args_from(s: Seq<char>, cp: int) -> Seq<Seq<char>>
    decreases s.len() - cp,
{
    if cp < 0 || cp >= s.len() {
        Seq::empty()
    } else {
        match (active_open(s, cp), active_close(s, cp)) {
            (Some(o), Some(c)) => {
                proof {
                    lemma_active_open_bounds(s, cp);
                    lemma_active_close_bounds(s, cp);
                }
                if o < c {
                    seq![s.subrange(o + 1, c)] + args_from(s, c + 1)
                } else {
                    seq!["}"@] + args_from(s, c + 1)
                }
            },
            (Some(o), None) => {
                proof {
                    lemma_active_open_bounds(s, cp);
                }
                seq!["{"@] + args_from(s, o + 1)
            },
            (None, Some(c)) => {
                proof {
                    lemma_active_close_bounds(s, cp);
                }
                seq!["}"@] + args_from(s, c + 1)
            },
            (None, None) => Seq::empty(),
        }
    }
}

/// The normalized template of `s`.
pub open spec fn formatted(s: Seq<char>) -> Seq<char> {
    formatted_from(s, 0, 0)
}

/// The extracted arguments of `s`, aligned one-to-one with the markers of
/// `formatted(s)`.
pub open spec fn extracted(s: Seq<char>) -> Seq<Seq<char>> {
    args_from(s, 0)
}

/// Returns the formatted message and the extracted arguments. In the
/// formatted message, every active placeholder and every unmatched active
/// brace is replaced by a generic positional marker (`{placeholder0}`,
/// `{placeholder1}`, ...); the replaced elements are stored in the extracted
/// arguments, in order. Total for every input: malformed brace text is
/// absorbed, never an error.
pub fn generic_format(msg: String) -> (r: (String, Vec<String>))
    ensures
        r.0@ == formatted(msg@),
        r.1.deep_view() == extracted(msg@),
{
    let s = msg.as_str();
    let n = s.unicode_len();
    let mut out = String::new();
    let mut args: Vec<String> = Vec::new();
    let mut cp: usize = 0;
    let mut pos: usize = 0;
    while cp < n
        invariant
            n == msg@.len(),
            s@ == msg@,
            cp <= n,
            pos <= cp,
            pos == args.len(),
            out@ + formatted_from(msg@, cp as int, pos as nat) == formatted(msg@),
            args.deep_view() + args_from(msg@, cp as int) == extracted(msg@),
        decreases n - cp,
    {
        let ghost prev_out = out@;
        let ghost prev_args = args.deep_view();
        let ghost prev_cp = cp as int;
        let ghost prev_pos = pos as nat;
        let o = find_active_left_brace(s, cp);
        let c = find_active_right_brace(s, cp);
        proof {
            lemma_active_open_bounds(msg@, cp as int);
            lemma_active_close_bounds(msg@, cp as int);
        }
        match (o, c) {
            (Some(po), Some(pc)) => {
                if po < pc {
                    out.append(s.substring_char(cp, po));
                    let m = marker_string(pos);
                    out.append(m.as_str());
                    args.push(s.substring_char(po + 1, pc).to_owned());
                    pos = pos + 1;
                    cp = pc + 1;
                } else {
                    out.append(s.substring_char(cp, pc));
                    let m = marker_string(pos);
                    out.append(m.as_str());
                    args.push("}".to_owned());
                    pos = pos + 1;
                    cp = pc + 1;
                }
            }
            (Some(po), None) => {
                out.append(s.substring_char(cp, po));
                let m = marker_string(pos);
                out.append(m.as_str());
                args.push("{".to_owned());
                pos = pos + 1;
                cp = po + 1;
            }
            (None, Some(pc)) => {
                out.append(s.substring_char(cp, pc));
                let m = marker_string(pos);
                out.append(m.as_str());
                args.push("}".to_owned());
                pos = pos + 1;
                cp = pc + 1;
            }
            (None, None) => {
                out.append(s.substring_char(cp, n));
                cp = n;
            }
        }
        proof {
            assert(out@ + formatted_from(msg@, cp as int, pos as nat) =~= prev_out
                + formatted_from(msg@, prev_cp, prev_pos));
            assert(args.deep_view() + args_from(msg@, cp as int) =~= prev_args + args_from(
                msg@,
                prev_cp,
            ));
        }
    }
    proof {
        assert(out@ + formatted_from(msg@, cp as int, pos as nat) =~= out@);
        assert(args.deep_view() + args_from(msg@, cp as int) =~= args.deep_view());
    }
    (out, args)
}

/// Returns the formatted message and the extracted arguments of `msg`, as
/// `generic_format` does.
pub fn format_msg(msg: &str) -> (r: (String, Vec<String>))
    ensures
        r.0@ == formatted(msg@),
        r.1.deep_view() == extracted(msg@),
{
    generic_format(msg.to_owned())
}

} // verus!
