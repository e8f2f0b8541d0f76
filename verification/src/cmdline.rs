//! Command-line tokenization.
//!
//! A process's command line arrives as one raw wide-character buffer; it
//! is split into an argument vector by the platform's native quoting
//! convention:
//!
//! - The first argument (the program name) is special: when it starts
//!   with a double quote it runs to the next double quote, otherwise to
//!   the first blank or tab; no escaping applies inside it.
//! - In the remaining text, blanks and tabs outside quotes separate
//!   arguments, a double quote toggles quoted mode, `2n` backslashes
//!   before a double quote collapse to `n` backslashes with the quote
//!   acting as a quote, `2n+1` backslashes before a double quote
//!   collapse to `n` backslashes followed by a literal double quote,
//!   and backslashes not followed by a double quote are literal.

use crate::wide::{decoded, spec_truncate_nul, truncate_at_nul, decode_wide};
use vstd::prelude::*;

verus! {

/// A blank or a tab: the only separators the convention knows.
pub open spec fn is_blank(c: u16) -> bool {
    c == 0x20 || c == 0x09
}

/// A run of `n` backslash units.
pub open spec fn bs_run(n: nat) -> Seq<u16>
    decreases n,
{
    if n == 0 {
        Seq::empty()
    } else {
        bs_run((n - 1) as nat).push(0x5c)
    }
}

/// The tokenizer automaton's state: finished arguments, the argument
/// being accumulated, whether one is open at all, quoted mode, and the
/// number of backslashes seen but not yet resolved.
pub struct TokState {
    pub args: Seq<Seq<u16>>,
    pub cur: Seq<u16>,
    pub in_arg: bool,
    pub in_quotes: bool,
    pub slashes: nat,
}

/// The automaton's start state.
pub open spec fn tok_init() -> TokState {
    TokState { args: Seq::empty(), cur: Seq::empty(), in_arg: false, in_quotes: false, slashes: 0 }
}

/// One character of the quoting convention.
pub open spec fn tok_step(st: TokState, c: u16) -> TokState {
    if c == 0x5c {
        TokState {
            args: st.args,
            cur: st.cur,
            in_arg: true,
            in_quotes: st.in_quotes,
            slashes: st.slashes + 1,
        }
    } else if c == 0x22 {
        if st.slashes % 2 == 1 {
            TokState {
                args: st.args,
                cur: st.cur + bs_run(st.slashes / 2) + seq![0x22u16],
                in_arg: true,
                in_quotes: st.in_quotes,
                slashes: 0,
            }
        } else {
            TokState {
                args: st.args,
                cur: st.cur + bs_run(st.slashes / 2),
                in_arg: true,
                in_quotes: !st.in_quotes,
                slashes: 0,
            }
        }
    } else if is_blank(c) && !st.in_quotes {
        if st.in_arg {
            TokState {
                args: st.args.push(st.cur + bs_run(st.slashes)),
                cur: Seq::empty(),
                in_arg: false,
                in_quotes: false,
                slashes: 0,
            }
        } else {
            st
        }
    } else {
        TokState {
            args: st.args,
            cur: st.cur + bs_run(st.slashes) + seq![c],
            in_arg: true,
            in_quotes: st.in_quotes,
            slashes: 0,
        }
    }
}

/// The automaton run over the first `i` characters of `s`.
pub open spec fn tok_at(s: Seq<u16>, i: int) -> TokState
    decreases i,
{
    if i <= 0 {
        tok_init()
    } else {
        tok_step(tok_at(s, i - 1), s[i - 1])
    }
}

/// Flushes the automaton at end of input: pending backslashes are
/// literal, and an open argument is finished.
pub open spec fn tok_finish(st: TokState) -> Seq<Seq<u16>> {
    if st.in_arg {
        st.args.push(st.cur + bs_run(st.slashes))
    } else {
        st.args
    }
}

/// The arguments the automaton yields for the whole of `s`.
pub open spec fn run_args(s: Seq<u16>) -> Seq<Seq<u16>> {
    tok_finish(tok_at(s, s.len() as int))
}

/// The first index at or after `i` holding a blank or tab, or the
/// length of `s` when there is none.
pub open spec fn blank_end(s: Seq<u16>, i: int) -> int
    decreases s.len() - i,
{
    if i < 0 || i >= s.len() {
        s.len() as int
    } else if is_blank(s[i]) {
        i
    } else {
        blank_end(s, i + 1)
    }
}

/// The first index at or after `i` holding a double quote, or the
/// length of `s` when there is none.
pub open spec fn quote_end(s: Seq<u16>, i: int) -> int
    decreases s.len() - i,
{
    if i < 0 || i >= s.len() {
        s.len() as int
    } else if s[i] == 0x22 {
        i
    } else {
        quote_end(s, i + 1)
    }
}

/// The whole convention: the special first argument, then the automaton
/// over the rest.  An empty command line yields no arguments at all.
pub open spec fn spec_tokenize(s: Seq<u16>) -> Seq<Seq<u16>> {
    if s.len() == 0 {
        Seq::empty()
    } else if s[0] == 0x22 {
        let e = quote_end(s, 1);
        let rest = if e + 1 <= s.len() {
            s.subrange(e + 1, s.len() as int)
        } else {
            Seq::empty()
        };
        seq![s.subrange(1, e)] + run_args(rest)
    } else {
        let e = blank_end(s, 0);
        seq![s.subrange(0, e)] + run_args(s.subrange(e, s.len() as int))
    }
}

/// The views of a sequence of owned wide tokens.
pub open spec fn views_of(s: Seq<Vec<u16>>) -> Seq<Seq<u16>> {
    s.map_values(|t: Vec<u16>| t@)
}

/// Appends `n` backslash units to `cur`.
fn push_slashes(cur: &mut Vec<u16>, n: usize)
    ensures
        final(cur)@ == old(cur)@ + bs_run(n as nat),
{
    let mut k: usize = 0;
    while k < n
        invariant
            0 <= k <= n,
            cur@ == old(cur)@ + bs_run(k as nat),
        decreases n - k,
    {
        cur.push(0x5c);
        k += 1;
    }
}

/// Runs the automaton over `s` from index `from` on.
fn run_automaton(s: &Vec<u16>, from: usize) -> (r: Vec<Vec<u16>>)
    requires
        from <= s.len(),
    ensures
        views_of(r@) == run_args(s@.subrange(from as int, s@.len() as int)),
{
    let ghost rest = s@.subrange(from as int, s@.len() as int);
    let mut args: Vec<Vec<u16>> = Vec::new();
    let mut cur: Vec<u16> = Vec::new();
    let mut in_arg: bool = false;
    let mut in_quotes: bool = false;
    let mut slashes: usize = 0;
    let mut j: usize = from;
    while j < s.len()
        invariant
            from <= j <= s.len(),
            rest == s@.subrange(from as int, s@.len() as int),
            slashes <= j - from,
            ({
                let st = tok_at(rest, j - from);
                &&& views_of(args@) == st.args
                &&& cur@ == st.cur
                &&& in_arg == st.in_arg
                &&& in_quotes == st.in_quotes
                &&& slashes as nat == st.slashes
            }),
        decreases s.len() - j,
    {
        let ghost st = tok_at(rest, j - from);
        let c = s[j];
        proof {
            assert(rest[j - from] == c);
            assert(tok_at(rest, j - from + 1) == tok_step(st, c));
        }
        if c == 0x5c {
            slashes += 1;
            in_arg = true;
        } else if c == 0x22 {
            let half = slashes / 2;
            push_slashes(&mut cur, half);
            if slashes % 2 == 1 {
                cur.push(0x22);
                proof {
                    assert(cur@ =~= st.cur + bs_run((st.slashes / 2) as nat) + seq![0x22u16]);
                }
            } else {
                in_quotes = !in_quotes;
                proof {
                    assert(cur@ =~= st.cur + bs_run((st.slashes / 2) as nat));
                }
            }
            slashes = 0;
            in_arg = true;
        } else if (c == 0x20 || c == 0x09) && !in_quotes {
            if in_arg {
                push_slashes(&mut cur, slashes);
                args.push(cur);
                cur = Vec::new();
                in_arg = false;
                slashes = 0;
                proof {
                    assert(views_of(args@) =~= st.args.push(st.cur + bs_run(st.slashes)));
                }
            }
        } else {
            push_slashes(&mut cur, slashes);
            cur.push(c);
            slashes = 0;
            in_arg = true;
            proof {
                assert(cur@ =~= st.cur + bs_run(st.slashes) + seq![c]);
            }
        }
        j += 1;
    }
    if in_arg {
        push_slashes(&mut cur, slashes);
        args.push(cur);
        proof {
            let st = tok_at(rest, s@.len() - from);
            assert(views_of(args@) =~= st.args.push(st.cur + bs_run(st.slashes)));
        }
    }
    proof {
        assert(rest.len() == s@.len() - from);
    }
    args
}

/// Splits a raw command-line buffer (cut at its first zero unit) into
/// wide argument tokens by the native quoting convention.
pub fn tokenize_wide(cmd: &Vec<u16>) -> (r: Vec<Vec<u16>>)
    ensures
        views_of(r@) == spec_tokenize(spec_truncate_nul(cmd@)),
{
    let t = truncate_at_nul(cmd);
    if t.len() == 0 {
        let r: Vec<Vec<u16>> = Vec::new();
        proof {
            assert(views_of(r@) =~= spec_tokenize(t@));
        }
        return r;
    }
    let mut first: Vec<u16> = Vec::new();
    let mut rest_from: usize;
    if t[0] == 0x22 {
        let mut e: usize = 1;
        while e < t.len() && t[e] != 0x22
            invariant
                1 <= e <= t.len(),
                forall|j: int| 1 <= j < e ==> t@[j] != 0x22,
            decreases t.len() - e,
        {
            e += 1;
        }
        proof {
            lemma_quote_end(t@, 1, e as int);
        }
        let mut k: usize = 1;
        while k < e
            invariant
                1 <= k <= e <= t.len(),
                first@ == t@.subrange(1, k as int),
            decreases e - k,
        {
            let x = t[k];
            first.push(x);
            proof {
                assert(first@ =~= t@.subrange(1, k + 1));
            }
            k += 1;
        }
        rest_from = if e < t.len() {
            e + 1
        } else {
            e
        };
        proof {
            if e + 1 <= t@.len() {
                assert(t@.subrange(e + 1, t@.len() as int) == t@.subrange(
                    rest_from as int,
                    t@.len() as int,
                ));
            } else {
                assert(t@.subrange(rest_from as int, t@.len() as int) =~= Seq::<u16>::empty());
            }
        }
    } else {
        let mut e: usize = 0;
        while e < t.len() && t[e] != 0x20 && t[e] != 0x09
            invariant
                0 <= e <= t.len(),
                forall|j: int| 0 <= j < e ==> !is_blank(t@[j]),
            decreases t.len() - e,
        {
            e += 1;
        }
        proof {
            lemma_blank_end(t@, 0, e as int);
        }
        let mut k: usize = 0;
        while k < e
            invariant
                0 <= k <= e <= t.len(),
                first@ == t@.subrange(0, k as int),
            decreases e - k,
        {
            let x = t[k];
            first.push(x);
            proof {
                assert(first@ =~= t@.subrange(0, k + 1));
            }
            k += 1;
        }
        rest_from = e;
    }
    let ghost first_view = first@;
    let mut r = run_automaton(&t, rest_from);
    r.insert(0, first);
    proof {
        assert(views_of(r@) =~= seq![first_view] + run_args(
            t@.subrange(rest_from as int, t@.len() as int),
        ));
        assert(views_of(r@) =~= spec_tokenize(t@));
    }
    r
}

/// `quote_end(s, i)` equals any position from `i` on that holds a quote
/// (or the length) with none before it.
proof fn lemma_quote_end(s: Seq<u16>, i: int, end: int)
    requires
        0 <= i <= end <= s.len(),
        forall|j: int| i <= j < end ==> s[j] != 0x22,
        end < s.len() ==> s[end] == 0x22,
    ensures
        quote_end(s, i) == end,
    decreases end - i,
{
    if i < end {
        lemma_quote_end(s, i + 1, end);
    }
}

/// `blank_end(s, i)` equals any position from `i` on that holds a blank
/// (or the length) with none before it.
proof fn lemma_blank_end(s: Seq<u16>, i: int, end: int)
    requires
        0 <= i <= end <= s.len(),
        forall|j: int| i <= j < end ==> !is_blank(s[j]),
        end < s.len() ==> is_blank(s[end]),
    ensures
        blank_end(s, i) == end,
    decreases end - i,
{
    if i < end {
        lemma_blank_end(s, i + 1, end);
    }
}

/// Splits a raw command-line buffer into decoded argument strings.
pub fn tokenize_command_line(cmd: &Vec<u16>) -> (r: Vec<String>)
    ensures
        r@.len() == spec_tokenize(spec_truncate_nul(cmd@)).len(),
        forall|i: int|
            0 <= i < r@.len() ==> r@[i]@ == decoded(spec_tokenize(spec_truncate_nul(cmd@))[i]),
{
    let toks = tokenize_wide(cmd);
    let mut r: Vec<String> = Vec::new();
    let mut k: usize = 0;
    while k < toks.len()
        invariant
            0 <= k <= toks@.len(),
            views_of(toks@) == spec_tokenize(spec_truncate_nul(cmd@)),
            r@.len() == k,
            forall|i: int| 0 <= i < k ==> r@[i]@ == decoded(views_of(toks@)[i]),
        decreases toks.len() - k,
    {
        let s = decode_wide(&toks[k]);
        r.push(s);
        k += 1;
    }
    r
}

} // verus!
