//! Reading segmented contact managers in the ASABR format: a section `rate [ <start> <end>
//! <rate> , ... ]` and a section `delay [ <start> <end> <delay> , ... ]`, in either order.
//!
//! In a list, the numbers of a segment follow each other, and segments are separated by
//! commas; a list may end after a comma.

use vstd::prelude::*;

use crate::contact::ContactInfo;
use crate::contact_manager::segmentation::pseg::PSegmentationManager;
use crate::contact_manager::segmentation::seg::SegmentationManager;
use crate::contact_manager::segmentation::{valid_profile, BaseSegmentationManager, Segment, Token};
use crate::contact_plan::from_asabr_lexer::{
    read_number, spec_number, tokens_fit, word_is, ReadFromTokens, ReadManager, EDELIMITER,
};
use crate::contact_plan::lexer::{word, word_eq, PlanToken};
use crate::parsing::{EOF, INVALID_STATE};

verus! {

/// The error of a section keyword that is neither `rate` nor `delay`.
pub const ETOKEN: &'static str = "Could not lex this into a Token";

/// The error of two sections of the same kind, for a segmentation manager.
pub const ESEGMENTS: &'static str = "Could not convert the SegmentInfo into a SegmentationManager";

/// The error of two sections of the same kind, for a priority-aware segmentation manager.
pub const EPSEGMENTS: &'static str = "Could not convert the SegmentInfo into a PSegmentationManager";

/// The segment of three numbers: start, end and value.
pub open spec fn seg_of(v: Seq<i64>) -> Segment<i64> {
    Segment { start: v[0], end: v[1], val: v[2] }
}

/// Reading the rest of a list of segments from token `p`: `open` tells whether numbers may come
/// next, `sep` whether a comma was just read, `cur` holds the numbers of the segment being read
/// and `acc` the segments read.
pub open spec fn spec_seg_list(
    chars: Seq<char>,
    toks: Seq<PlanToken>,
    p: int,
    open: bool,
    sep: bool,
    cur: Seq<i64>,
    acc: Seq<Segment<i64>>,
) -> Result<(Seq<Segment<i64>>, int), (int, &'static str)>
    decreases toks.len() - p,
{
    if p < 0 || p >= toks.len() {
        Err((toks.len() as int, EOF))
    } else if !open {
        if sep {
            Err((p, INVALID_STATE))
        } else if word_is(chars, toks, p, seq!['[']) {
            spec_seg_list(chars, toks, p + 1, true, sep, seq![], acc)
        } else if word_is(chars, toks, p, seq![']']) {
            Ok((acc, p + 1))
        } else if word_is(chars, toks, p, seq![',']) {
            spec_seg_list(chars, toks, p + 1, true, true, seq![], acc)
        } else {
            Err((p, EDELIMITER))
        }
    } else if sep && word_is(chars, toks, p, seq![']']) {
        Ok((acc, p + 1))
    } else {
        match spec_number(chars, toks, p) {
            Err(e) => Err(e),
            Ok(v) => {
                let c = cur.push(v);
                if c.len() >= 3 {
                    spec_seg_list(chars, toks, p + 1, false, false, seq![], acc.push(seg_of(c)))
                } else {
                    spec_seg_list(chars, toks, p + 1, true, false, c, acc)
                }
            },
        }
    }
}

/// The section keyword at token `p`.
pub open spec fn spec_seg_token(chars: Seq<char>, toks: Seq<PlanToken>, p: int) -> Result<Token, (int, &'static str)> {
    if p < 0 || p >= toks.len() {
        Err((toks.len() as int, EOF))
    } else if word(chars, toks[p]) == seq!['r', 'a', 't', 'e'] {
        Ok(Token::Rate)
    } else if word(chars, toks[p]) == seq!['d', 'e', 'l', 'a', 'y'] {
        Ok(Token::Delay)
    } else {
        Err((p, ETOKEN))
    }
}

/// Reading the two sections of a segmented manager from token `pos`: its rate segments, its
/// delay segments and the position after them; `err` is the error, at `pos`, of two sections
/// of the same kind.
pub open spec fn spec_segments(
    chars: Seq<char>,
    toks: Seq<PlanToken>,
    pos: int,
    err: &'static str,
) -> Result<(Seq<Segment<i64>>, Seq<Segment<i64>>, int), (int, &'static str)> {
    match spec_seg_token(chars, toks, pos) {
        Err(e) => Err(e),
        Ok(t1) => match spec_seg_list(chars, toks, pos + 1, false, false, seq![], seq![]) {
            Err(e) => Err(e),
            Ok((l1, p2)) => match spec_seg_token(chars, toks, p2) {
                Err(e) => Err(e),
                Ok(t2) => match spec_seg_list(chars, toks, p2 + 1, false, false, seq![], seq![]) {
                    Err(e) => Err(e),
                    Ok((l2, next)) => if t1 == Token::Rate && t2 == Token::Delay {
                        Ok((l1, l2, next))
                    } else if t1 == Token::Delay && t2 == Token::Rate {
                        Ok((l2, l1, next))
                    } else {
                        Err((pos, err))
                    },
                },
            },
        },
    }
}

/// Reads the section keyword at token `p`.
fn read_seg_token(chars: &Vec<char>, toks: &Vec<PlanToken>, p: usize) -> (r: Result<Token, (usize, &'static str)>)
    requires
        tokens_fit(chars@, toks@),
    ensures
        match r {
            Ok(t) => spec_seg_token(chars@, toks@, p as int) == Ok::<Token, (int, &'static str)>(t),
            Err((at, m)) => spec_seg_token(chars@, toks@, p as int) == Err::<Token, (int, &'static str)>((at as int, m)),
        },
{
    if p >= toks.len() {
        return Err((toks.len(), EOF));
    }
    let t = toks[p];
    assert(t.start <= t.end <= chars@.len());
    let rate_w: [char; 4] = ['r', 'a', 't', 'e'];
    let delay_w: [char; 5] = ['d', 'e', 'l', 'a', 'y'];
    assert(rate_w@ =~= seq!['r', 'a', 't', 'e']);
    assert(delay_w@ =~= seq!['d', 'e', 'l', 'a', 'y']);
    if word_eq(chars, t, &rate_w) {
        Ok(Token::Rate)
    } else if word_eq(chars, t, &delay_w) {
        Ok(Token::Delay)
    } else {
        Err((p, ETOKEN))
    }
}

/// Reads a list of segments from token `p`.
pub fn read_seg_list(chars: &Vec<char>, toks: &Vec<PlanToken>, p: usize) -> (r: Result<
    (Vec<Segment<i64>>, usize),
    (usize, &'static str),
>)
    requires
        tokens_fit(chars@, toks@),
    ensures
        match r {
            Ok((v, next)) => spec_seg_list(chars@, toks@, p as int, false, false, seq![], seq![]) == Ok::<
                (Seq<Segment<i64>>, int),
                (int, &'static str),
            >((v@, next as int)),
            Err((at, m)) => spec_seg_list(chars@, toks@, p as int, false, false, seq![], seq![]) == Err::<
                (Seq<Segment<i64>>, int),
                (int, &'static str),
            >((at as int, m)),
        },
{
    let ghost whole = spec_seg_list(chars@, toks@, p as int, false, false, seq![], seq![]);
    let n = toks.len();
    let open_w: [char; 1] = ['['];
    let close_w: [char; 1] = [']'];
    let sep_w: [char; 1] = [','];
    assert(open_w@ =~= seq!['[']);
    assert(close_w@ =~= seq![']']);
    assert(sep_w@ =~= seq![',']);
    let mut q = p;
    let mut open = false;
    let mut sep = false;
    let mut cur: Vec<i64> = Vec::new();
    let mut acc: Vec<Segment<i64>> = Vec::new();
    loop
        invariant
            n == toks@.len(),
            tokens_fit(chars@, toks@),
            open_w@ == seq!['['],
            close_w@ == seq![']'],
            sep_w@ == seq![','],
            cur@.len() < 3,
            whole == spec_seg_list(chars@, toks@, q as int, open, sep, cur@, acc@),
            whole == spec_seg_list(chars@, toks@, p as int, false, false, seq![], seq![]),
        decreases n - q,
    {
        if q >= n {
            return Err((n, EOF));
        }
        let t = toks[q];
        assert(t.start <= t.end <= chars@.len());
        if !open {
            if sep {
                return Err((q, INVALID_STATE));
            } else if word_eq(chars, t, &open_w) {
                open = true;
                cur = Vec::new();
            } else if word_eq(chars, t, &close_w) {
                return Ok((acc, q + 1));
            } else if word_eq(chars, t, &sep_w) {
                open = true;
                sep = true;
                cur = Vec::new();
            } else {
                return Err((q, EDELIMITER));
            }
        } else if sep && word_eq(chars, t, &close_w) {
            return Ok((acc, q + 1));
        } else {
            let v = match read_number(chars, toks, q) {
                Err(e) => {
                    return Err(e);
                },
                Ok(v) => v,
            };
            cur.push(v);
            sep = false;
            if cur.len() >= 3 {
                let s = Segment { start: cur[0], end: cur[1], val: cur[2] };
                proof {
                    assert(s == seg_of(cur@));
                }
                acc.push(s);
                cur = Vec::new();
                open = false;
            }
        }
        q = q + 1;
    }
}

/// Reads the two sections of a segmented manager from token `pos`.
fn read_segments(chars: &Vec<char>, toks: &Vec<PlanToken>, pos: usize, err: &'static str) -> (r: Result<
    (Vec<Segment<i64>>, Vec<Segment<i64>>, usize),
    (usize, &'static str),
>)
    requires
        tokens_fit(chars@, toks@),
    ensures
        match r {
            Ok((rates, delays, next)) => spec_segments(chars@, toks@, pos as int, err) == Ok::<
                (Seq<Segment<i64>>, Seq<Segment<i64>>, int),
                (int, &'static str),
            >((rates@, delays@, next as int)),
            Err((at, m)) => spec_segments(chars@, toks@, pos as int, err) == Err::<
                (Seq<Segment<i64>>, Seq<Segment<i64>>, int),
                (int, &'static str),
            >((at as int, m)),
        },
{
    let _n = toks.len();
    let t1 = match read_seg_token(chars, toks, pos) {
        Err(e) => {
            return Err(e);
        },
        Ok(t) => t,
    };
    assert(pos < toks@.len());
    let (l1, p2) = match read_seg_list(chars, toks, pos + 1) {
        Err(e) => {
            return Err(e);
        },
        Ok(x) => x,
    };
    let t2 = match read_seg_token(chars, toks, p2) {
        Err(e) => {
            return Err(e);
        },
        Ok(t) => t,
    };
    assert(p2 < toks@.len());
    let (l2, next) = match read_seg_list(chars, toks, p2 + 1) {
        Err(e) => {
            return Err(e);
        },
        Ok(x) => x,
    };
    match (t1, t2) {
        (Token::Rate, Token::Delay) => Ok((l1, l2, next)),
        (Token::Delay, Token::Rate) => Ok((l2, l1, next)),
        _ => Err((pos, err)),
    }
}

/// Reads a segmented manager of any kind from token `pos`.
fn read_segmented<M: BaseSegmentationManager>(
    chars: &Vec<char>,
    toks: &Vec<PlanToken>,
    pos: usize,
    err: &'static str,
) -> (r: Result<(M, usize), (usize, &'static str)>)
    requires
        tokens_fit(chars@, toks@),
    ensures
        match r {
            Ok((m, next)) => spec_segments(chars@, toks@, pos as int, err) matches Ok((rates, delays, n)) && n
                == next && M::made_from(rates, delays, m),
            Err((at, msg)) => spec_segments(chars@, toks@, pos as int, err) == Err::<
                (Seq<Segment<i64>>, Seq<Segment<i64>>, int),
                (int, &'static str),
            >((at as int, msg)),
        },
{
    match read_segments(chars, toks, pos, err) {
        Err(e) => Err(e),
        Ok((rates, delays, next)) => Ok((M::new(rates, delays), next)),
    }
}

impl ReadFromTokens for SegmentationManager {
    open spec fn spec_read(chars: Seq<char>, toks: Seq<PlanToken>, pos: int) -> Result<int, (int, &'static str)> {
        match spec_segments(chars, toks, pos, ESEGMENTS) {
            Err(e) => Err(e),
            Ok((_, _, next)) => Ok(next),
        }
    }

    open spec fn read_gives(chars: Seq<char>, toks: Seq<PlanToken>, pos: int, v: Self) -> bool {
        &&& spec_segments(chars, toks, pos, ESEGMENTS) matches Ok((rates, delays, _))
        &&& v.rate_intervals@ == rates
        &&& v.delay_intervals@ == delays
        &&& v.free_intervals@.len() == 0
        &&& v.original_volume == 0
    }

    fn read(chars: &Vec<char>, toks: &Vec<PlanToken>, pos: usize) -> (r: Result<(Self, usize), (usize, &'static str)>) {
        read_segmented::<SegmentationManager>(chars, toks, pos, ESEGMENTS)
    }
}

impl ReadManager for SegmentationManager {
    open spec fn init_ok_at(chars: Seq<char>, toks: Seq<PlanToken>, pos: int, info: ContactInfo) -> bool {
        &&& spec_segments(chars, toks, pos, ESEGMENTS) matches Ok((rates, delays, _))
        &&& valid_profile(rates, delays, info.start as int, info.end as int)
    }

    proof fn lemma_init_ok_at(chars: Seq<char>, toks: Seq<PlanToken>, pos: int, v: Self, info: ContactInfo) {
    }
}

impl ReadFromTokens for PSegmentationManager {
    open spec fn spec_read(chars: Seq<char>, toks: Seq<PlanToken>, pos: int) -> Result<int, (int, &'static str)> {
        match spec_segments(chars, toks, pos, EPSEGMENTS) {
            Err(e) => Err(e),
            Ok((_, _, next)) => Ok(next),
        }
    }

    open spec fn read_gives(chars: Seq<char>, toks: Seq<PlanToken>, pos: int, v: Self) -> bool {
        &&& spec_segments(chars, toks, pos, EPSEGMENTS) matches Ok((rates, delays, _))
        &&& v.rate_intervals@ == rates
        &&& v.delay_intervals@ == delays
        &&& v.booking@.len() == 0
        &&& v.original_volume == 0
    }

    fn read(chars: &Vec<char>, toks: &Vec<PlanToken>, pos: usize) -> (r: Result<(Self, usize), (usize, &'static str)>) {
        read_segmented::<PSegmentationManager>(chars, toks, pos, EPSEGMENTS)
    }
}

impl ReadManager for PSegmentationManager {
    open spec fn init_ok_at(chars: Seq<char>, toks: Seq<PlanToken>, pos: int, info: ContactInfo) -> bool {
        &&& spec_segments(chars, toks, pos, EPSEGMENTS) matches Ok((rates, delays, _))
        &&& valid_profile(rates, delays, info.start as int, info.end as int)
    }

    proof fn lemma_init_ok_at(chars: Seq<char>, toks: Seq<PlanToken>, pos: int, v: Self, info: ContactInfo) {
    }
}

} // verus!
