//! The executable single-pass tokenizer, proved equal to the model's
//! `spec_run`.

use vstd::prelude::*;

use crate::driver::parse;
use crate::findings::{or_findings, Findings, Handler};
use crate::handlers::{recursion_sentinel_vec, spec_substitute, substitute, DOLLAR, LBRACE, RBRACE};
use crate::model::{dispatch_state, drive_cap, flag_of, init_state, limit_flag, spec_drive,
    spec_run, st_of, tag_seq, Mode};

verus! {

/// One full pass of substitution over `input`: every top-level `${...}`
/// region is replaced by its handler's output, all other bytes (including
/// malformed or unterminated constructs) are kept, and what was observed is
/// folded into `findings`.
pub(crate) fn pass(input: &Vec<u8>, budget: usize, findings: &mut Findings) -> (out: Vec<u8>)
    ensures
        ({
            let p = spec_run(init_state(), input@, budget as nat);
            out@ == p.out && *final(findings) == or_findings(*old(findings), p.fnd)
        }),
    decreases budget, 0int,
{
    let mut acc: Vec<u8> = Vec::new();
    let mut sub: Vec<u8> = Vec::new();
    let mut mode = Mode::Plain;
    let mut nesting: usize = 0;
    let mut delta = Findings::new();
    let ghost mut tacc: Seq<Handler> = Seq::empty();
    let mut i: usize = 0;
    proof {
        assert(input@.skip(0) =~= input@);
    }
    while i < input.len()
        invariant
            i <= input@.len(),
            nesting <= i,
            !(mode is Sub) && !(mode is SubDollar) ==> nesting == 0,
            spec_run(init_state(), input@, budget as nat) == spec_run(
                st_of(mode, nesting as nat, acc@, sub@, delta, tacc),
                input@.skip(i as int),
                budget as nat,
            ),
        decreases input@.len() - i,
    {
        let ghost s1 = st_of(mode, nesting as nat, acc@, sub@, delta, tacc);
        let ghost rest = input@.skip(i as int);
        let c = input[i];
        let in_sub = match mode {
            Mode::Sub => true,
            Mode::SubDollar => true,
            _ => false,
        };
        if in_sub && c == RBRACE && nesting == 0 {
            // a top-level region closed: dispatch its inner bytes
            if budget == 0 {
                delta.hit_recursion_limit = true;
                let mut sent = recursion_sentinel_vec();
                acc.append(&mut sent);
                proof {
                    assert(delta == or_findings(s1.fnd, limit_flag()));
                }
            } else {
                let (parsed, subf) = parse(sub.as_slice(), budget - 1);
                delta.merge(subf);
                let (outb, h) = substitute(&parsed);
                let mut outb2 = outb;
                acc.append(&mut outb2);
                match h {
                    Some(Handler::Jndi) => {
                        delta.saw_jndi = true;
                    },
                    Some(Handler::Env) => {
                        delta.saw_env = true;
                    },
                    Some(Handler::Main) => {
                        delta.saw_main = true;
                    },
                    _ => {},
                }
                proof {
                    let q = spec_drive(s1.sub, (budget - 1) as nat, drive_cap());
                    let s = spec_substitute(q.out);
                    tacc = tacc + q.tags + tag_seq(s.1);
                    assert(delta == or_findings(or_findings(s1.fnd, q.fnd), flag_of(s.1)));
                }
            }
            sub = Vec::new();
            mode = Mode::Plain;
            proof {
                assert(st_of(mode, nesting as nat, acc@, sub@, delta, tacc) =~= dispatch_state(
                    s1,
                    budget as nat,
                ));
            }
        } else {
            match mode {
                Mode::Plain => {
                    if c == DOLLAR {
                        mode = Mode::Dollar;
                    } else {
                        acc.push(c);
                    }
                },
                Mode::Dollar => {
                    if c == DOLLAR {
                        acc.push(DOLLAR);
                        mode = Mode::DollarDollar;
                    } else if c == LBRACE {
                        mode = Mode::Sub;
                        sub = Vec::new();
                    } else {
                        acc.push(DOLLAR);
                        acc.push(c);
                        mode = Mode::Plain;
                    }
                },
                Mode::DollarDollar => {
                    if c == LBRACE {
                        acc.push(LBRACE);
                    } else {
                        acc.push(DOLLAR);
                        acc.push(c);
                    }
                    mode = Mode::Plain;
                },
                Mode::Sub => {
                    if c == DOLLAR {
                        sub.push(DOLLAR);
                        mode = Mode::SubDollar;
                    } else if c == RBRACE {
                        nesting = nesting - 1;
                        sub.push(RBRACE);
                    } else {
                        sub.push(c);
                    }
                },
                Mode::SubDollar => {
                    if c == LBRACE {
                        sub.push(LBRACE);
                        nesting = nesting + 1;
                        mode = Mode::Sub;
                    } else if c == RBRACE {
                        nesting = nesting - 1;
                        sub.push(RBRACE);
                        mode = Mode::Sub;
                    } else {
                        sub.push(c);
                        mode = Mode::Sub;
                    }
                },
            }
        }
        proof {
            let s2 = st_of(mode, nesting as nat, acc@, sub@, delta, tacc);
            assert(rest.len() > 0);
            assert(rest[0] == c);
            assert(rest.drop_first() =~= input@.skip(i as int + 1));
            assert(spec_run(s1, rest, budget as nat) == spec_run(
                s2,
                rest.drop_first(),
                budget as nat,
            ));
        }
        i = i + 1;
    }
    proof {
        assert(input@.skip(i as int) =~= Seq::<u8>::empty());
    }
    match mode {
        Mode::Plain => {},
        Mode::Dollar => {
            acc.push(DOLLAR);
        },
        Mode::DollarDollar => {
            acc.push(DOLLAR);
        },
        Mode::Sub => {
            acc.push(DOLLAR);
            acc.push(LBRACE);
            acc.append(&mut sub);
        },
        Mode::SubDollar => {
            acc.push(DOLLAR);
            acc.push(LBRACE);
            acc.append(&mut sub);
        },
    }
    findings.merge(delta);
    acc
}

} // verus!
