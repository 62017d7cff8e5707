//! The mathematical model of the interpreter: the byte state machine of one
//! tokenizer pass and the fixed-point driver over it, as total spec
//! functions. The executable tokenizer and driver are proved to return
//! exactly what this model says.

use vstd::prelude::*;

use crate::findings::{empty_findings, or_findings, Findings, Handler};
use crate::handlers::{recursion_sentinel, spec_substitute, DOLLAR, LBRACE, RBRACE};

verus! {

// ---------------------------------------------------------------------------
// The state of one tokenizer pass
// ---------------------------------------------------------------------------
/// One mode of the single-pass tokenizer.
#[derive(Clone, Copy, Debug)]
pub enum Mode {
    /// Accumulating literal output.
    Plain,
    /// Consumed a `$`; the next byte decides between escape and substitution.
    Dollar,
    /// Consumed `$$`; one `$` is already in the output.
    DollarDollar,
    /// Inside a `${...}` region, collecting its inner bytes.
    Sub,
    /// Inside a `${...}` region, just consumed a `$`.
    SubDollar,
}

/// The full state of one tokenizer pass: the mode, the count of extra
/// unmatched `${` inside the current region, the output so far, the current
/// region's inner bytes, and the findings and handler tags recorded so far.
#[verifier::ext_equal]
pub struct PassState {
    pub mode: Mode,
    pub nesting: nat,
    pub acc: Seq<u8>,
    pub sub: Seq<u8>,
    pub fnd: Findings,
    pub tags: Seq<Handler>,
}

pub open spec fn st_of(
    mode: Mode,
    nesting: nat,
    acc: Seq<u8>,
    sub: Seq<u8>,
    fnd: Findings,
    tags: Seq<Handler>,
) -> PassState {
    PassState { mode, nesting, acc, sub, fnd, tags }
}

/// The state a pass starts in.
pub open spec fn init_state() -> PassState {
    st_of(Mode::Plain, 0, Seq::empty(), Seq::empty(), empty_findings(), Seq::empty())
}

/// What one tokenizer pass produces: the output bytes, the findings recorded
/// during the pass, and the handler tags dispatched, in order.
#[verifier::ext_equal]
pub struct RunOut {
    pub out: Seq<u8>,
    pub fnd: Findings,
    pub tags: Seq<Handler>,
}

/// What the fixed-point driver produces: the final bytes, the findings and
/// tags accumulated over all passes, and whether the driver's iteration cap
/// tripped before a fixed point was reached.
#[verifier::ext_equal]
pub struct DriveOut {
    pub out: Seq<u8>,
    pub fnd: Findings,
    pub tags: Seq<Handler>,
    pub tripped: bool,
}

/// A findings record with only the recursion-limit flag set.
pub open spec fn limit_flag() -> Findings {
    Findings { saw_jndi: false, saw_env: false, saw_main: false, hit_recursion_limit: true }
}

/// The findings contribution of one dispatched handler.
pub open spec fn flag_of(h: Option<Handler>) -> Findings {
    match h {
        Some(Handler::Jndi) => Findings {
            saw_jndi: true,
            saw_env: false,
            saw_main: false,
            hit_recursion_limit: false,
        },
        Some(Handler::Env) => Findings {
            saw_jndi: false,
            saw_env: true,
            saw_main: false,
            hit_recursion_limit: false,
        },
        Some(Handler::Main) => Findings {
            saw_jndi: false,
            saw_env: false,
            saw_main: true,
            hit_recursion_limit: false,
        },
        _ => empty_findings(),
    }
}

/// The tag-list contribution of one dispatched handler.
pub open spec fn tag_seq(h: Option<Handler>) -> Seq<Handler> {
    match h {
        Some(t) => seq![t],
        None => Seq::empty(),
    }
}

/// How many passes the fixed-point driver will attempt before giving up and
/// reporting the recursion-limit finding instead.
pub open spec fn drive_cap() -> nat {
    0xffff_ffff_ffff_ffff
}

// ---------------------------------------------------------------------------
// The single-pass tokenizer and the fixed-point driver, as one mutually
// recursive definition: dispatching a region drives its inner bytes with a
// decremented budget.
// ---------------------------------------------------------------------------
/// The state after a top-level `${...}` region closes: with the budget
/// exhausted the region becomes the recursion sentinel and the flag is set;
/// otherwise the inner bytes are driven to their fixed point with one less
/// budget and the result is handed to the handler dispatch.
pub open spec fn dispatch_state(st: PassState, budget: nat) -> PassState
    decreases budget, 0nat, 0nat,
{
    if budget == 0 {
        st_of(
            Mode::Plain,
            0,
            st.acc + recursion_sentinel(),
            Seq::empty(),
            or_findings(st.fnd, limit_flag()),
            st.tags,
        )
    } else {
        let q = spec_drive(st.sub, (budget - 1) as nat, drive_cap());
        let s = spec_substitute(q.out);
        st_of(
            Mode::Plain,
            0,
            st.acc + s.0,
            Seq::empty(),
            or_findings(or_findings(st.fnd, q.fnd), flag_of(s.1)),
            st.tags + q.tags + tag_seq(s.1),
        )
    }
}

/// One tokenizer pass over `rest`, started in state `st`: every top-level
/// `${...}` region is replaced by its handler's output and all other bytes
/// are kept, as the transition table of the byte state machine says.
pub open spec fn spec_run(st: PassState, rest: Seq<u8>, budget: nat) -> RunOut
    decreases budget, 1nat, rest.len(),
{
    if rest.len() == 0 {
        match st.mode {
            Mode::Plain => RunOut { out: st.acc, fnd: st.fnd, tags: st.tags },
            Mode::Dollar => RunOut { out: st.acc.push(DOLLAR), fnd: st.fnd, tags: st.tags },
            Mode::DollarDollar => RunOut { out: st.acc.push(DOLLAR), fnd: st.fnd, tags: st.tags },
            Mode::Sub => RunOut {
                out: st.acc.push(DOLLAR).push(LBRACE) + st.sub,
                fnd: st.fnd,
                tags: st.tags,
            },
            Mode::SubDollar => RunOut {
                out: st.acc.push(DOLLAR).push(LBRACE) + st.sub,
                fnd: st.fnd,
                tags: st.tags,
            },
        }
    } else {
        let c = rest[0];
        let rest1 = rest.drop_first();
        match st.mode {
            Mode::Plain => {
                if c == DOLLAR {
                    spec_run(st_of(Mode::Dollar, 0, st.acc, st.sub, st.fnd, st.tags), rest1, budget)
                } else {
                    spec_run(
                        st_of(Mode::Plain, 0, st.acc.push(c), st.sub, st.fnd, st.tags),
                        rest1,
                        budget,
                    )
                }
            },
            Mode::Dollar => {
                if c == DOLLAR {
                    spec_run(
                        st_of(Mode::DollarDollar, 0, st.acc.push(DOLLAR), st.sub, st.fnd, st.tags),
                        rest1,
                        budget,
                    )
                } else if c == LBRACE {
                    spec_run(
                        st_of(Mode::Sub, 0, st.acc, Seq::empty(), st.fnd, st.tags),
                        rest1,
                        budget,
                    )
                } else {
                    spec_run(
                        st_of(Mode::Plain, 0, st.acc.push(DOLLAR).push(c), st.sub, st.fnd, st.tags),
                        rest1,
                        budget,
                    )
                }
            },
            Mode::DollarDollar => {
                if c == LBRACE {
                    spec_run(
                        st_of(Mode::Plain, 0, st.acc.push(LBRACE), st.sub, st.fnd, st.tags),
                        rest1,
                        budget,
                    )
                } else {
                    spec_run(
                        st_of(Mode::Plain, 0, st.acc.push(DOLLAR).push(c), st.sub, st.fnd, st.tags),
                        rest1,
                        budget,
                    )
                }
            },
            Mode::Sub => {
                if c == DOLLAR {
                    spec_run(
                        st_of(
                            Mode::SubDollar,
                            st.nesting,
                            st.acc,
                            st.sub.push(DOLLAR),
                            st.fnd,
                            st.tags,
                        ),
                        rest1,
                        budget,
                    )
                } else if c == RBRACE {
                    if st.nesting == 0 {
                        spec_run(dispatch_state(st, budget), rest1, budget)
                    } else {
                        spec_run(
                            st_of(
                                Mode::Sub,
                                (st.nesting - 1) as nat,
                                st.acc,
                                st.sub.push(RBRACE),
                                st.fnd,
                                st.tags,
                            ),
                            rest1,
                            budget,
                        )
                    }
                } else {
                    spec_run(
                        st_of(Mode::Sub, st.nesting, st.acc, st.sub.push(c), st.fnd, st.tags),
                        rest1,
                        budget,
                    )
                }
            },
            Mode::SubDollar => {
                if c == LBRACE {
                    spec_run(
                        st_of(
                            Mode::Sub,
                            st.nesting + 1,
                            st.acc,
                            st.sub.push(LBRACE),
                            st.fnd,
                            st.tags,
                        ),
                        rest1,
                        budget,
                    )
                } else if c == RBRACE {
                    if st.nesting == 0 {
                        spec_run(dispatch_state(st, budget), rest1, budget)
                    } else {
                        spec_run(
                            st_of(
                                Mode::Sub,
                                (st.nesting - 1) as nat,
                                st.acc,
                                st.sub.push(RBRACE),
                                st.fnd,
                                st.tags,
                            ),
                            rest1,
                            budget,
                        )
                    }
                } else {
                    spec_run(
                        st_of(Mode::Sub, st.nesting, st.acc, st.sub.push(c), st.fnd, st.tags),
                        rest1,
                        budget,
                    )
                }
            },
        }
    }
}

/// The fixed-point driver: run passes over the buffer until a pass returns
/// its input unchanged, merging findings and concatenating tags across the
/// passes. If `n` passes do not reach a fixed point the driver trips: it
/// keeps the last buffer and reports the recursion-limit finding.
pub open spec fn spec_drive(x: Seq<u8>, budget: nat, n: nat) -> DriveOut
    decreases budget, 2nat, n,
{
    if n == 0 {
        DriveOut { out: x, fnd: limit_flag(), tags: Seq::empty(), tripped: true }
    } else {
        let p = spec_run(init_state(), x, budget);
        if p.out == x {
            DriveOut { out: x, fnd: p.fnd, tags: p.tags, tripped: false }
        } else {
            let q = spec_drive(p.out, budget, (n - 1) as nat);
            DriveOut {
                out: q.out,
                fnd: or_findings(p.fnd, q.fnd),
                tags: p.tags + q.tags,
                tripped: q.tripped,
            }
        }
    }
}

/// What `parse` returns: the input driven to its fixed point under the
/// full iteration cap.
pub open spec fn spec_parse(x: Seq<u8>, budget: nat) -> DriveOut {
    spec_drive(x, budget, drive_cap())
}

} // verus!
