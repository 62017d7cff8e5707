//! The fixed-point driver and the public entry points, proved equal to the
//! model's `spec_parse`.

use vstd::prelude::*;

use crate::findings::{or_findings, Findings};
use crate::model::{init_state, limit_flag, spec_drive, spec_parse, spec_run};
use crate::text::utf8_decode;
use crate::tokenizer::pass;
use vstd::slice::slice_to_vec;
use vstd::string::StringSliceAdditionalSpecFns;
use vstd::utf8::{decode_utf8, valid_utf8};

verus! {

/// The final expansion was not valid UTF-8, so it cannot be returned as text.
#[derive(Clone, Copy, Debug, PartialEq, Eq, Structural)]
pub struct DecodeError;

/// Do `a` and `b` hold the same bytes?
pub(crate) fn eq_bytes(a: &Vec<u8>, b: &Vec<u8>) -> (r: bool)
    ensures
        r == (a@ == b@),
{
    if a.len() != b.len() {
        return false;
    }
    let mut i: usize = 0;
    while i < a.len()
        invariant
            i <= a@.len() == b@.len(),
            forall|j: int| 0 <= j < i ==> a@[j] == b@[j],
        decreases a@.len() - i,
    {
        if a[i] != b[i] {
            return false;
        }
        i = i + 1;
    }
    proof {
        assert(a@ =~= b@);
    }
    true
}

/// Expand `input` to its fixed point: run single passes of substitution until
/// a pass returns its input unchanged, accumulating findings over all passes
/// and all nested dispatches. Each nested `${...}` dispatch drives its inner
/// bytes with `recursion_limit - 1`; at zero the region becomes the literal
/// sentinel `ERROR_RECURSION_LIMIT_REACHED` and the flag is set. Should the
/// iteration cap ever be exhausted before a fixed point is reached, the last
/// buffer is returned and the recursion-limit finding is reported as well.
pub fn parse(input: &[u8], recursion_limit: usize) -> (r: (Vec<u8>, Findings))
    ensures
        r.0@ == spec_parse(input@, recursion_limit as nat).out,
        r.1 == spec_parse(input@, recursion_limit as nat).fnd,
    decreases recursion_limit, 1int,
{
    let mut cur: Vec<u8> = slice_to_vec(input);
    let mut findings = Findings::new();
    let mut n: u64 = 0xffff_ffff_ffff_ffff;
    while n > 0
        invariant
            spec_parse(input@, recursion_limit as nat).out == spec_drive(
                cur@,
                recursion_limit as nat,
                n as nat,
            ).out,
            spec_parse(input@, recursion_limit as nat).fnd == or_findings(
                findings,
                spec_drive(cur@, recursion_limit as nat, n as nat).fnd,
            ),
        decreases n,
    {
        let ghost pre_cur = cur@;
        let ghost pre_n = n as nat;
        let ghost pre_findings = findings;
        let out = pass(&cur, recursion_limit, &mut findings);
        n = n - 1;
        proof {
            let p = spec_run(init_state(), pre_cur, recursion_limit as nat);
            let d = spec_drive(pre_cur, recursion_limit as nat, pre_n);
            if p.out == pre_cur {
                assert(d.out == pre_cur && d.fnd == p.fnd);
            } else {
                let q = spec_drive(p.out, recursion_limit as nat, n as nat);
                assert(d.out == q.out && d.fnd == or_findings(p.fnd, q.fnd));
                assert(or_findings(pre_findings, d.fnd) == or_findings(findings, q.fnd));
            }
        }
        if eq_bytes(&out, &cur) {
            return (out, findings);
        }
        cur = out;
    }
    findings.hit_recursion_limit = true;
    proof {
        assert(spec_drive(cur@, recursion_limit as nat, 0).out == cur@);
        assert(spec_drive(cur@, recursion_limit as nat, 0).fnd == limit_flag());
    }
    (cur, findings)
}

/// Expand `input` as `parse` does and return the result as text: fails with
/// `DecodeError` exactly when the final output is not valid UTF-8.
/// Intermediate passes need not be valid text.
pub fn parse_str(input: &str, recursion_limit: usize) -> (r: Result<(String, Findings), DecodeError>)
    ensures
        ({
            let d = spec_parse(input.spec_bytes(), recursion_limit as nat);
            match r {
                Ok(p) => valid_utf8(d.out) && p.0@ == decode_utf8(d.out) && p.1 == d.fnd,
                Err(_) => !valid_utf8(d.out),
            }
        }),
{
    let (out, findings) = parse(input.as_bytes(), recursion_limit);
    match utf8_decode(&out) {
        Some(s) => Ok((s, findings)),
        None => Err(DecodeError),
    }
}

} // verus!
