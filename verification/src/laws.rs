//! The interpreter's laws, each proved against the model: idempotence at the
//! fixed point, escape literalness, plain pass-through, flag correspondence,
//! and findings monotonicity in the budget.

use vstd::prelude::*;

use crate::findings::{empty_findings, or_findings, Findings, Handler};
use crate::handlers::{spec_substitute, DOLLAR, LBRACE, RBRACE};
use crate::model::{dispatch_state, drive_cap, flag_of, init_state, limit_flag, spec_drive,
    spec_parse, spec_run, st_of, tag_seq, Mode, PassState, RunOut};

verus! {

// ---------------------------------------------------------------------------
// Idempotence at the fixed point
// ---------------------------------------------------------------------------
/// A drive that did not trip its iteration cap stopped at a fixed point of
/// the single-pass tokenizer, and one more pass over that fixed point records
/// nothing that the drive did not already record.
proof fn lemma_drive_fixpoint(x: Seq<u8>, b: nat, n: nat)
    requires
        !spec_drive(x, b, n).tripped,
    ensures
        spec_run(init_state(), spec_drive(x, b, n).out, b).out == spec_drive(x, b, n).out,
        le_findings(
            spec_run(init_state(), spec_drive(x, b, n).out, b).fnd,
            spec_drive(x, b, n).fnd,
        ),
    decreases n,
{
    let p = spec_run(init_state(), x, b);
    if p.out == x {
    } else {
        lemma_drive_fixpoint(p.out, b, (n - 1) as nat);
    }
}

/// Idempotence at the fixed point: whenever `parse` reaches a fixed point
/// (its pass cap did not trip, which one pass per input byte plus one makes
/// certain in practice), parsing its output again returns that output
/// unchanged, and every flag of the second parse was already a flag of the
/// first.
pub proof fn lemma_idempotent(x: Seq<u8>, b: nat)
    requires
        !spec_parse(x, b).tripped,
    ensures
        spec_parse(spec_parse(x, b).out, b).out == spec_parse(x, b).out,
        le_findings(spec_parse(spec_parse(x, b).out, b).fnd, spec_parse(x, b).fnd),
{
    lemma_drive_fixpoint(x, b, drive_cap());
    let y = spec_parse(x, b).out;
    let p = spec_run(init_state(), y, b);
    assert(p.out == y);
}

// ---------------------------------------------------------------------------
// Plain pass-through
// ---------------------------------------------------------------------------
/// Scanning dollar-free bytes in the plain mode copies them to the output and
/// records nothing.
proof fn lemma_run_no_dollar(
    acc: Seq<u8>,
    sub: Seq<u8>,
    fnd: Findings,
    tags: Seq<Handler>,
    rest: Seq<u8>,
    b: nat,
)
    requires
        forall|i: int| 0 <= i < rest.len() ==> rest[i] != DOLLAR,
    ensures
        spec_run(st_of(Mode::Plain, 0, acc, sub, fnd, tags), rest, b) == (RunOut {
            out: acc + rest,
            fnd: fnd,
            tags: tags,
        }),
    decreases rest.len(),
{
    if rest.len() == 0 {
        assert(acc + rest =~= acc);
    } else {
        let c = rest[0];
        lemma_run_no_dollar(acc.push(c), sub, fnd, tags, rest.drop_first(), b);
        assert(acc.push(c) + rest.drop_first() =~= acc + rest);
    }
}

/// Plain pass-through: an input without a `$` is returned unchanged, with
/// every findings flag false, whatever the budget.
pub proof fn lemma_plain_pass_through(x: Seq<u8>, b: nat)
    requires
        forall|i: int| 0 <= i < x.len() ==> x[i] != DOLLAR,
    ensures
        spec_parse(x, b).out == x,
        spec_parse(x, b).fnd == empty_findings(),
{
    lemma_run_no_dollar(Seq::empty(), Seq::empty(), empty_findings(), Seq::empty(), x, b);
    assert(Seq::<u8>::empty() + x =~= x);
    let p = spec_run(init_state(), x, b);
    assert(p.out == x);
}

// ---------------------------------------------------------------------------
// Escape literalness
// ---------------------------------------------------------------------------
/// No `${` occurs anywhere in `s`.
pub open spec fn free_of_open(s: Seq<u8>) -> bool {
    forall|i: int| 0 <= i < s.len() - 1 ==> !(#[trigger] s[i] == DOLLAR && s[i + 1] == LBRACE)
}

/// Scanning bytes without `${` outside a region copies them verbatim: lone
/// and doubled dollars are re-emitted as they came.
proof fn lemma_scan_literal(
    acc: Seq<u8>,
    sub: Seq<u8>,
    fnd: Findings,
    tags: Seq<Handler>,
    rest: Seq<u8>,
    b: nat,
)
    requires
        free_of_open(rest),
    ensures
        spec_run(st_of(Mode::Plain, 0, acc, sub, fnd, tags), rest, b) == (RunOut {
            out: acc + rest,
            fnd: fnd,
            tags: tags,
        }),
        rest.len() == 0 || rest[0] != LBRACE ==> spec_run(
            st_of(Mode::Dollar, 0, acc, sub, fnd, tags),
            rest,
            b,
        ) == (RunOut { out: acc + seq![DOLLAR] + rest, fnd: fnd, tags: tags }),
        rest.len() == 0 || rest[0] != LBRACE ==> spec_run(
            st_of(Mode::DollarDollar, 0, acc, sub, fnd, tags),
            rest,
            b,
        ) == (RunOut { out: acc + seq![DOLLAR] + rest, fnd: fnd, tags: tags }),
    decreases rest.len(),
{
    if rest.len() == 0 {
        assert(acc + rest =~= acc);
        assert(acc + seq![DOLLAR] + rest =~= acc.push(DOLLAR));
    } else {
        let c = rest[0];
        let rest1 = rest.drop_first();
        lemma_scan_literal(acc, sub, fnd, tags, rest1, b);
        lemma_scan_literal(acc.push(c), sub, fnd, tags, rest1, b);
        lemma_scan_literal(acc.push(DOLLAR), sub, fnd, tags, rest1, b);
        lemma_scan_literal(acc.push(DOLLAR).push(c), sub, fnd, tags, rest1, b);
        assert(acc.push(c) + rest1 =~= acc + rest);
        assert(acc.push(DOLLAR).push(c) + rest1 =~= acc + seq![DOLLAR] + rest);
        if c == DOLLAR {
            assert(rest1.len() == 0 || rest1[0] != LBRACE);
            assert(acc + rest =~= acc + seq![DOLLAR] + rest1);
            assert(acc.push(DOLLAR) + seq![DOLLAR] + rest1 =~= acc + seq![DOLLAR] + rest);
        }
    }
}

/// Scanning bytes without `}` and without `${` inside a region appends them
/// to the inner buffer, and the unterminated region is re-emitted verbatim at
/// the end of the pass.
proof fn lemma_region_scan(
    acc: Seq<u8>,
    sub: Seq<u8>,
    fnd: Findings,
    tags: Seq<Handler>,
    rest: Seq<u8>,
    b: nat,
)
    requires
        free_of_open(rest),
        forall|i: int| 0 <= i < rest.len() ==> rest[i] != RBRACE,
    ensures
        spec_run(st_of(Mode::Sub, 0, acc, sub, fnd, tags), rest, b) == (RunOut {
            out: acc + seq![DOLLAR, LBRACE] + sub + rest,
            fnd: fnd,
            tags: tags,
        }),
        rest.len() == 0 || rest[0] != LBRACE ==> spec_run(
            st_of(Mode::SubDollar, 0, acc, sub, fnd, tags),
            rest,
            b,
        ) == (RunOut { out: acc + seq![DOLLAR, LBRACE] + sub + rest, fnd: fnd, tags: tags }),
    decreases rest.len(),
{
    if rest.len() == 0 {
        assert(acc + seq![DOLLAR, LBRACE] + sub + rest =~= acc.push(DOLLAR).push(LBRACE) + sub);
    } else {
        let c = rest[0];
        let rest1 = rest.drop_first();
        lemma_region_scan(acc, sub.push(c), fnd, tags, rest1, b);
        lemma_region_scan(acc, sub.push(DOLLAR), fnd, tags, rest1, b);
        assert(acc + seq![DOLLAR, LBRACE] + sub.push(c) + rest1 =~= acc + seq![DOLLAR, LBRACE]
            + sub + rest);
        if c == DOLLAR {
            assert(rest1.len() == 0 || rest1[0] != LBRACE);
        }
    }
}

/// Escape literalness: an escaped region opener stays literal when nothing
/// ever closes it. For every byte string `x` that begins with `{` and
/// contains neither `}` nor `${`, parsing `$$ ++ x` yields `$ ++ x`, no
/// handler is dispatched, and every findings flag is false. (With a `}`
/// somewhere after the escaped `{`, or with a second `$` in front, the
/// fixed-point driver re-reads the collapsed `${` as a live region, so the
/// escape does not stay literal on those inputs.)
pub proof fn lemma_escape_literal(x: Seq<u8>, b: nat)
    requires
        x.len() > 0,
        x[0] == LBRACE,
        forall|i: int| 0 <= i < x.len() ==> x[i] != RBRACE,
        free_of_open(x),
    ensures
        spec_parse(seq![DOLLAR, DOLLAR] + x, b).out == seq![DOLLAR] + x,
        spec_parse(seq![DOLLAR, DOLLAR] + x, b).fnd == empty_findings(),
{
    let input = seq![DOLLAR, DOLLAR] + x;
    let t = x.drop_first();
    assert(free_of_open(t)) by {
        assert(forall|i: int| 0 <= i < t.len() ==> t[i] == x[i + 1]);
    }
    assert(forall|i: int| 0 <= i < t.len() ==> t[i] != RBRACE) by {
        assert(forall|i: int| 0 <= i < t.len() ==> t[i] == x[i + 1]);
    }
    let e = Seq::<u8>::empty();
    let ef = empty_findings();
    let et = Seq::<Handler>::empty();

    // first pass: `$${` collapses to `${`, everything after is copied
    let y = seq![DOLLAR] + x;
    let p = spec_run(init_state(), input, b);
    assert(input[0] == DOLLAR);
    assert(input.drop_first() =~= y);
    assert(y[0] == DOLLAR);
    assert(y.drop_first() =~= x);
    assert(x.drop_first() =~= t);
    assert(spec_run(init_state(), input, b) == spec_run(
        st_of(Mode::Dollar, 0, e, e, ef, et),
        y,
        b,
    ));
    assert(spec_run(st_of(Mode::Dollar, 0, e, e, ef, et), y, b) == spec_run(
        st_of(Mode::DollarDollar, 0, e.push(DOLLAR), e, ef, et),
        x,
        b,
    ));
    assert(x[0] == LBRACE);
    assert(spec_run(st_of(Mode::DollarDollar, 0, e.push(DOLLAR), e, ef, et), x, b) == spec_run(
        st_of(Mode::Plain, 0, e.push(DOLLAR).push(LBRACE), e, ef, et),
        t,
        b,
    ));
    lemma_scan_literal(e.push(DOLLAR).push(LBRACE), e, ef, et, t, b);
    assert(e.push(DOLLAR).push(LBRACE) + t =~= y);
    assert(p.out == y && p.fnd == ef && p.tags == et);
    assert(p.out != input) by {
        assert(p.out.len() != input.len());
    }

    // second pass: the `${` opens a region that never closes, so the pass
    // copies it back out unchanged and a fixed point is reached
    let p2 = spec_run(init_state(), y, b);
    assert(spec_run(init_state(), y, b) == spec_run(st_of(Mode::Dollar, 0, e, e, ef, et), x, b));
    assert(spec_run(st_of(Mode::Dollar, 0, e, e, ef, et), x, b) == spec_run(
        st_of(Mode::Sub, 0, e, e, ef, et),
        t,
        b,
    ));
    lemma_region_scan(e, e, ef, et, t, b);
    assert(e + seq![DOLLAR, LBRACE] + e + t =~= y);
    assert(p2.out == y && p2.fnd == ef && p2.tags == et);

    let q = spec_drive(y, b, (drive_cap() - 1) as nat);
    assert(q.out == y && q.fnd == ef);
    assert(spec_parse(input, b).out == y);
    assert(spec_parse(input, b).fnd == or_findings(ef, ef));
}

// ---------------------------------------------------------------------------
// Flag correspondence
// ---------------------------------------------------------------------------
/// The flags of a findings record say exactly which of the dangerous handler
/// kinds occur in the tag list.
pub open spec fn flags_match_tags(f: Findings, t: Seq<Handler>) -> bool {
    &&& (f.saw_jndi <==> t.contains(Handler::Jndi))
    &&& (f.saw_env <==> t.contains(Handler::Env))
    &&& (f.saw_main <==> t.contains(Handler::Main))
}

proof fn lemma_contains_concat(a: Seq<Handler>, b: Seq<Handler>, x: Handler)
    ensures
        (a + b).contains(x) <==> a.contains(x) || b.contains(x),
{
    if a.contains(x) {
        let i = choose|i: int| 0 <= i < a.len() && a[i] == x;
        assert((a + b)[i] == x);
    }
    if b.contains(x) {
        let i = choose|i: int| 0 <= i < b.len() && b[i] == x;
        assert((a + b)[a.len() + i] == x);
    }
    if (a + b).contains(x) {
        let i = choose|i: int| 0 <= i < (a + b).len() && (a + b)[i] == x;
        if i < a.len() {
            assert(a[i] == x);
        } else {
            assert(b[i - a.len()] == x);
        }
    }
}

proof fn lemma_flags_or(f1: Findings, t1: Seq<Handler>, f2: Findings, t2: Seq<Handler>)
    requires
        flags_match_tags(f1, t1),
        flags_match_tags(f2, t2),
    ensures
        flags_match_tags(or_findings(f1, f2), t1 + t2),
{
    lemma_contains_concat(t1, t2, Handler::Jndi);
    lemma_contains_concat(t1, t2, Handler::Env);
    lemma_contains_concat(t1, t2, Handler::Main);
}

proof fn lemma_flags_of_handler(h: Option<Handler>)
    ensures
        flags_match_tags(flag_of(h), tag_seq(h)),
{
    match h {
        Some(t) => {
            assert(tag_seq(h)[0] == t);
        },
        None => {},
    }
}

proof fn lemma_run_flags(st: PassState, rest: Seq<u8>, b: nat)
    requires
        flags_match_tags(st.fnd, st.tags),
    ensures
        flags_match_tags(spec_run(st, rest, b).fnd, spec_run(st, rest, b).tags),
    decreases b, 1nat, rest.len(),
{
    if rest.len() == 0 {
    } else {
        let c = rest[0];
        let rest1 = rest.drop_first();
        match st.mode {
            Mode::Plain => {
                if c == DOLLAR {
                    lemma_run_flags(
                        st_of(Mode::Dollar, 0, st.acc, st.sub, st.fnd, st.tags),
                        rest1,
                        b,
                    );
                } else {
                    lemma_run_flags(
                        st_of(Mode::Plain, 0, st.acc.push(c), st.sub, st.fnd, st.tags),
                        rest1,
                        b,
                    );
                }
            },
            Mode::Dollar => {
                if c == DOLLAR {
                    lemma_run_flags(
                        st_of(Mode::DollarDollar, 0, st.acc.push(DOLLAR), st.sub, st.fnd, st.tags),
                        rest1,
                        b,
                    );
                } else if c == LBRACE {
                    lemma_run_flags(
                        st_of(Mode::Sub, 0, st.acc, Seq::empty(), st.fnd, st.tags),
                        rest1,
                        b,
                    );
                } else {
                    lemma_run_flags(
                        st_of(Mode::Plain, 0, st.acc.push(DOLLAR).push(c), st.sub, st.fnd, st.tags),
                        rest1,
                        b,
                    );
                }
            },
            Mode::DollarDollar => {
                if c == LBRACE {
                    lemma_run_flags(
                        st_of(Mode::Plain, 0, st.acc.push(LBRACE), st.sub, st.fnd, st.tags),
                        rest1,
                        b,
                    );
                } else {
                    lemma_run_flags(
                        st_of(Mode::Plain, 0, st.acc.push(DOLLAR).push(c), st.sub, st.fnd, st.tags),
                        rest1,
                        b,
                    );
                }
            },
            Mode::Sub => {
                if c == DOLLAR {
                    lemma_run_flags(
                        st_of(Mode::SubDollar, st.nesting, st.acc, st.sub.push(DOLLAR), st.fnd, st.tags),
                        rest1,
                        b,
                    );
                } else if c == RBRACE {
                    if st.nesting == 0 {
                        lemma_dispatch_flags(st, b);
                        lemma_run_flags(dispatch_state(st, b), rest1, b);
                    } else {
                        lemma_run_flags(
                            st_of(Mode::Sub, (st.nesting - 1) as nat, st.acc, st.sub.push(RBRACE), st.fnd, st.tags),
                            rest1,
                            b,
                        );
                    }
                } else {
                    lemma_run_flags(
                        st_of(Mode::Sub, st.nesting, st.acc, st.sub.push(c), st.fnd, st.tags),
                        rest1,
                        b,
                    );
                }
            },
            Mode::SubDollar => {
                if c == LBRACE {
                    lemma_run_flags(
                        st_of(Mode::Sub, st.nesting + 1, st.acc, st.sub.push(LBRACE), st.fnd, st.tags),
                        rest1,
                        b,
                    );
                } else if c == RBRACE {
                    if st.nesting == 0 {
                        lemma_dispatch_flags(st, b);
                        lemma_run_flags(dispatch_state(st, b), rest1, b);
                    } else {
                        lemma_run_flags(
                            st_of(Mode::Sub, (st.nesting - 1) as nat, st.acc, st.sub.push(RBRACE), st.fnd, st.tags),
                            rest1,
                            b,
                        );
                    }
                } else {
                    lemma_run_flags(
                        st_of(Mode::Sub, st.nesting, st.acc, st.sub.push(c), st.fnd, st.tags),
                        rest1,
                        b,
                    );
                }
            },
        }
    }
}

proof fn lemma_dispatch_flags(st: PassState, b: nat)
    requires
        flags_match_tags(st.fnd, st.tags),
    ensures
        flags_match_tags(dispatch_state(st, b).fnd, dispatch_state(st, b).tags),
    decreases b, 0nat, 1nat,
{
    if b == 0 {
        lemma_flags_or(st.fnd, st.tags, limit_flag(), Seq::empty());
        assert(st.tags + Seq::<Handler>::empty() =~= st.tags);
    } else {
        let q = spec_drive(st.sub, (b - 1) as nat, drive_cap());
        let s = spec_substitute(q.out);
        lemma_drive_flags(st.sub, (b - 1) as nat, drive_cap());
        lemma_flags_of_handler(s.1);
        lemma_flags_or(st.fnd, st.tags, q.fnd, q.tags);
        lemma_flags_or(or_findings(st.fnd, q.fnd), st.tags + q.tags, flag_of(s.1), tag_seq(s.1));
    }
}

proof fn lemma_drive_flags(x: Seq<u8>, b: nat, n: nat)
    ensures
        flags_match_tags(spec_drive(x, b, n).fnd, spec_drive(x, b, n).tags),
    decreases b, 2nat, n,
{
    if n == 0 {
    } else {
        lemma_run_flags(init_state(), x, b);
        let p = spec_run(init_state(), x, b);
        if p.out == x {
        } else {
            let q = spec_drive(p.out, b, (n - 1) as nat);
            lemma_drive_flags(p.out, b, (n - 1) as nat);
            lemma_flags_or(p.fnd, p.tags, q.fnd, q.tags);
        }
    }
}

/// Flag correspondence: `saw_jndi` is true exactly when some `${...}` region
/// dispatched to the `jndi` handler during some fixed-point pass or nested
/// dispatch, and likewise for `saw_env` and `saw_main`: the model's tag list
/// records the dispatched handlers in order, and each flag is true precisely
/// when its handler occurs in that list.
pub proof fn lemma_flag_correspondence(x: Seq<u8>, b: nat)
    ensures
        flags_match_tags(spec_parse(x, b).fnd, spec_parse(x, b).tags),
{
    lemma_drive_flags(x, b, drive_cap());
}

// ---------------------------------------------------------------------------
// Findings monotonicity in the budget
// ---------------------------------------------------------------------------
/// Pointwise implication of findings flags.
pub open spec fn le_findings(a: Findings, b: Findings) -> bool {
    &&& (a.saw_jndi ==> b.saw_jndi)
    &&& (a.saw_env ==> b.saw_env)
    &&& (a.saw_main ==> b.saw_main)
    &&& (a.hit_recursion_limit ==> b.hit_recursion_limit)
}

/// A pass only ever adds to the findings it starts from.
proof fn lemma_run_fnd_grows(st: PassState, rest: Seq<u8>, b: nat)
    ensures
        le_findings(st.fnd, spec_run(st, rest, b).fnd),
    decreases rest.len(),
{
    if rest.len() == 0 {
    } else {
        let c = rest[0];
        let rest1 = rest.drop_first();
        match st.mode {
            Mode::Plain => {
                if c == DOLLAR {
                    lemma_run_fnd_grows(
                        st_of(Mode::Dollar, 0, st.acc, st.sub, st.fnd, st.tags),
                        rest1,
                        b,
                    );
                } else {
                    lemma_run_fnd_grows(
                        st_of(Mode::Plain, 0, st.acc.push(c), st.sub, st.fnd, st.tags),
                        rest1,
                        b,
                    );
                }
            },
            Mode::Dollar => {
                if c == DOLLAR {
                    lemma_run_fnd_grows(
                        st_of(Mode::DollarDollar, 0, st.acc.push(DOLLAR), st.sub, st.fnd, st.tags),
                        rest1,
                        b,
                    );
                } else if c == LBRACE {
                    lemma_run_fnd_grows(
                        st_of(Mode::Sub, 0, st.acc, Seq::empty(), st.fnd, st.tags),
                        rest1,
                        b,
                    );
                } else {
                    lemma_run_fnd_grows(
                        st_of(Mode::Plain, 0, st.acc.push(DOLLAR).push(c), st.sub, st.fnd, st.tags),
                        rest1,
                        b,
                    );
                }
            },
            Mode::DollarDollar => {
                if c == LBRACE {
                    lemma_run_fnd_grows(
                        st_of(Mode::Plain, 0, st.acc.push(LBRACE), st.sub, st.fnd, st.tags),
                        rest1,
                        b,
                    );
                } else {
                    lemma_run_fnd_grows(
                        st_of(Mode::Plain, 0, st.acc.push(DOLLAR).push(c), st.sub, st.fnd, st.tags),
                        rest1,
                        b,
                    );
                }
            },
            Mode::Sub => {
                if c == DOLLAR {
                    lemma_run_fnd_grows(
                        st_of(Mode::SubDollar, st.nesting, st.acc, st.sub.push(DOLLAR), st.fnd, st.tags),
                        rest1,
                        b,
                    );
                } else if c == RBRACE {
                    if st.nesting == 0 {
                        lemma_run_fnd_grows(dispatch_state(st, b), rest1, b);
                    } else {
                        lemma_run_fnd_grows(
                            st_of(Mode::Sub, (st.nesting - 1) as nat, st.acc, st.sub.push(RBRACE), st.fnd, st.tags),
                            rest1,
                            b,
                        );
                    }
                } else {
                    lemma_run_fnd_grows(
                        st_of(Mode::Sub, st.nesting, st.acc, st.sub.push(c), st.fnd, st.tags),
                        rest1,
                        b,
                    );
                }
            },
            Mode::SubDollar => {
                if c == LBRACE {
                    lemma_run_fnd_grows(
                        st_of(Mode::Sub, st.nesting + 1, st.acc, st.sub.push(LBRACE), st.fnd, st.tags),
                        rest1,
                        b,
                    );
                } else if c == RBRACE {
                    if st.nesting == 0 {
                        lemma_run_fnd_grows(dispatch_state(st, b), rest1, b);
                    } else {
                        lemma_run_fnd_grows(
                            st_of(Mode::Sub, (st.nesting - 1) as nat, st.acc, st.sub.push(RBRACE), st.fnd, st.tags),
                            rest1,
                            b,
                        );
                    }
                } else {
                    lemma_run_fnd_grows(
                        st_of(Mode::Sub, st.nesting, st.acc, st.sub.push(c), st.fnd, st.tags),
                        rest1,
                        b,
                    );
                }
            },
        }
    }
}

/// The budget only matters where it runs out: a pass that never hit the
/// recursion limit behaves the same under any larger budget.
proof fn lemma_run_budget(st: PassState, rest: Seq<u8>, b1: nat, b2: nat)
    requires
        b1 <= b2,
        !spec_run(st, rest, b1).fnd.hit_recursion_limit,
    ensures
        spec_run(st, rest, b2) == spec_run(st, rest, b1),
    decreases b1, 1nat, rest.len(),
{
    if rest.len() == 0 {
    } else {
        let c = rest[0];
        let rest1 = rest.drop_first();
        match st.mode {
            Mode::Plain => {
                if c == DOLLAR {
                    lemma_run_budget(
                        st_of(Mode::Dollar, 0, st.acc, st.sub, st.fnd, st.tags),
                        rest1,
                        b1,
                        b2,
                    );
                } else {
                    lemma_run_budget(
                        st_of(Mode::Plain, 0, st.acc.push(c), st.sub, st.fnd, st.tags),
                        rest1,
                        b1,
                        b2,
                    );
                }
            },
            Mode::Dollar => {
                if c == DOLLAR {
                    lemma_run_budget(
                        st_of(Mode::DollarDollar, 0, st.acc.push(DOLLAR), st.sub, st.fnd, st.tags),
                        rest1,
                        b1,
                        b2,
                    );
                } else if c == LBRACE {
                    lemma_run_budget(
                        st_of(Mode::Sub, 0, st.acc, Seq::empty(), st.fnd, st.tags),
                        rest1,
                        b1,
                        b2,
                    );
                } else {
                    lemma_run_budget(
                        st_of(Mode::Plain, 0, st.acc.push(DOLLAR).push(c), st.sub, st.fnd, st.tags),
                        rest1,
                        b1,
                        b2,
                    );
                }
            },
            Mode::DollarDollar => {
                if c == LBRACE {
                    lemma_run_budget(
                        st_of(Mode::Plain, 0, st.acc.push(LBRACE), st.sub, st.fnd, st.tags),
                        rest1,
                        b1,
                        b2,
                    );
                } else {
                    lemma_run_budget(
                        st_of(Mode::Plain, 0, st.acc.push(DOLLAR).push(c), st.sub, st.fnd, st.tags),
                        rest1,
                        b1,
                        b2,
                    );
                }
            },
            Mode::Sub => {
                if c == DOLLAR {
                    lemma_run_budget(
                        st_of(Mode::SubDollar, st.nesting, st.acc, st.sub.push(DOLLAR), st.fnd, st.tags),
                        rest1,
                        b1,
                        b2,
                    );
                } else if c == RBRACE {
                    if st.nesting == 0 {
                        lemma_dispatch_budget(st, b1, b2, rest1);
                        lemma_run_budget(dispatch_state(st, b1), rest1, b1, b2);
                    } else {
                        lemma_run_budget(
                            st_of(Mode::Sub, (st.nesting - 1) as nat, st.acc, st.sub.push(RBRACE), st.fnd, st.tags),
                            rest1,
                            b1,
                            b2,
                        );
                    }
                } else {
                    lemma_run_budget(
                        st_of(Mode::Sub, st.nesting, st.acc, st.sub.push(c), st.fnd, st.tags),
                        rest1,
                        b1,
                        b2,
                    );
                }
            },
            Mode::SubDollar => {
                if c == LBRACE {
                    lemma_run_budget(
                        st_of(Mode::Sub, st.nesting + 1, st.acc, st.sub.push(LBRACE), st.fnd, st.tags),
                        rest1,
                        b1,
                        b2,
                    );
                } else if c == RBRACE {
                    if st.nesting == 0 {
                        lemma_dispatch_budget(st, b1, b2, rest1);
                        lemma_run_budget(dispatch_state(st, b1), rest1, b1, b2);
                    } else {
                        lemma_run_budget(
                            st_of(Mode::Sub, (st.nesting - 1) as nat, st.acc, st.sub.push(RBRACE), st.fnd, st.tags),
                            rest1,
                            b1,
                            b2,
                        );
                    }
                } else {
                    lemma_run_budget(
                        st_of(Mode::Sub, st.nesting, st.acc, st.sub.push(c), st.fnd, st.tags),
                        rest1,
                        b1,
                        b2,
                    );
                }
            },
        }
    }
}

/// Companion to `lemma_run_budget` for the dispatch step itself: a dispatch
/// whose pass never hit the limit used a positive budget, and its nested
/// drive is the same under any larger budget.
proof fn lemma_dispatch_budget(st: PassState, b1: nat, b2: nat, rest1: Seq<u8>)
    requires
        b1 <= b2,
        !spec_run(dispatch_state(st, b1), rest1, b1).fnd.hit_recursion_limit,
    ensures
        dispatch_state(st, b2) == dispatch_state(st, b1),
    decreases b1, 0nat, 0nat,
{
    lemma_run_fnd_grows(dispatch_state(st, b1), rest1, b1);
    assert(!dispatch_state(st, b1).fnd.hit_recursion_limit);
    assert(b1 != 0);
    let q1 = spec_drive(st.sub, (b1 - 1) as nat, drive_cap());
    assert(!q1.fnd.hit_recursion_limit);
    lemma_drive_budget(st.sub, (b1 - 1) as nat, (b2 - 1) as nat, drive_cap());
}

proof fn lemma_drive_budget(x: Seq<u8>, b1: nat, b2: nat, n: nat)
    requires
        b1 <= b2,
        !spec_drive(x, b1, n).fnd.hit_recursion_limit,
    ensures
        spec_drive(x, b2, n) == spec_drive(x, b1, n),
    decreases b1, 2nat, n,
{
    if n == 0 {
    } else {
        let p1 = spec_run(init_state(), x, b1);
        if p1.out == x {
            lemma_run_budget(init_state(), x, b1, b2);
        } else {
            lemma_run_budget(init_state(), x, b1, b2);
            lemma_drive_budget(p1.out, b1, b2, (n - 1) as nat);
        }
    }
}

/// Findings monotonicity in the budget: when parsing with the smaller budget
/// `b1` never hit the recursion limit, parsing with any larger budget `b2`
/// returns the same output and the same findings — so every flag true at
/// `b1` is true at `b2`. (An input that does hit the limit at `b1` can
/// expand differently at `b2`, so the restriction is necessary.)
pub proof fn lemma_budget_monotone(x: Seq<u8>, b1: nat, b2: nat)
    requires
        b1 <= b2,
        !spec_parse(x, b1).fnd.hit_recursion_limit,
    ensures
        spec_parse(x, b2) == spec_parse(x, b1),
        le_findings(spec_parse(x, b1).fnd, spec_parse(x, b2).fnd),
{
    lemma_drive_budget(x, b1, b2, drive_cap());
}

} // verus!
