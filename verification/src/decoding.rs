//! The fusion passes seen against plain decoding.
//!
//! Plain decoding reads the code from its first byte, one instruction after
//! another, stepping over the immediates of `PUSHn`.  Every window that a
//! rule rewrites decodes into exactly the rule's fixed opcodes, so the walk
//! of a pass visits the same positions as plain decoding.  From this follow
//! the laws of this module: a pass fails exactly when decoding meets a
//! rejected byte before `INVALID`, it changes nothing from the first
//! `INVALID` that decoding meets, it never changes an immediate, and what
//! it changed is rejected when it is fed back in.

use vstd::prelude::*;
use crate::bytecode::opcode as op;
use crate::fusion::{
    Dialect, RuleView, apply_checks, filler, first_match, fusion_scan, inst_len, is_optimized, lemma_apply_checks_len,
    lemma_apply_checks_shape, lemma_first_match, lemma_rule_wf, lemma_scan_effect, lemma_scan_keeps_prefix, rewritable,
    rule_apply, rule_count, rule_matches, rule_shape, skip_steps, step_to, written_byte,
};

verus! {

/// Width of a plain instruction: the opcode, and for `PUSHn` its `n`
/// immediate bytes.
pub open spec fn plain_len(b: u8) -> int {
    if op::PUSH1 <= b && b <= op::PUSH32 {
        b - op::PUSH1 + 2
    } else {
        1
    }
}

pub proof fn lemma_plain_len(b: u8)
    ensures
        1 <= plain_len(b) <= 33,
{
}

/// Whether plain decoding of `s` from `i` starts an instruction at `p`.
pub open spec fn decodes_to(s: Seq<u8>, i: int, p: int) -> bool
    decreases p - i,
{
    if i < 0 || i > p {
        false
    } else if i == p {
        true
    } else if i >= s.len() || i + plain_len(s[i]) > p {
        false
    } else {
        proof {
            lemma_plain_len(s[i]);
        }
        decodes_to(s, i + plain_len(s[i]), p)
    }
}

/// Whether plain decoding of `s` from `i` meets a byte that dialect `d`
/// rejects before it meets `INVALID` or the end of the code.
pub open spec fn meets_optimized(d: Dialect, s: Seq<u8>, i: int) -> bool
    decreases s.len() - i,
{
    if i < 0 || i >= s.len() {
        false
    } else if s[i] == op::INVALID {
        false
    } else if is_optimized(d, s[i]) {
        true
    } else {
        proof {
            lemma_plain_len(s[i]);
        }
        meets_optimized(d, s, step_to(i, plain_len(s[i]), s.len() as int))
    }
}

/// A rule's fixed opcodes decode one after another: the first is at
/// offset 0, each next one starts where the previous instruction ends, and
/// the last instruction ends with the window.
pub open spec fn rule_decodes(r: RuleView) -> bool {
    &&& r.checks.len() >= 1
    &&& r.checks[0].0 == 0
    &&& forall|j: int|
        0 <= j < r.checks.len() - 1 ==> #[trigger] r.checks[j + 1].0 == r.checks[j].0 + plain_len(
            r.checks[j].1,
        )
    &&& r.checks[r.checks.len() - 1].0 + plain_len(r.checks[r.checks.len() - 1].1) == r.window + 1
}

pub proof fn lemma_rule_decodes(k: int)
    requires
        0 <= k < 31,
    ensures
        rule_decodes(rule_shape(k)),
        k < rule_count(Dialect::Bytecode) ==> is_optimized(Dialect::Bytecode, rule_shape(k).fused),
        is_optimized(Dialect::Handler, rule_shape(k).fused),
{
}

/// On a byte that the dialect does not reject, the walk steps over as much
/// as plain decoding does.
pub proof fn lemma_inst_len_plain(d: Dialect, b: u8)
    requires
        !is_optimized(d, b),
    ensures
        inst_len(d, b) == plain_len(b),
{
}

/// Whether decoding meets a rejected byte depends only on the code from
/// where it starts.
pub proof fn lemma_meets_agree(d: Dialect, s: Seq<u8>, u: Seq<u8>, i: int)
    requires
        s.len() == u.len(),
        forall|q: int| i <= q < s.len() ==> #[trigger] s[q] == u[q],
    ensures
        meets_optimized(d, s, i) == meets_optimized(d, u, i),
    decreases s.len() - i,
{
    if 0 <= i < s.len() && s[i] != op::INVALID && !is_optimized(d, s[i]) {
        lemma_plain_len(s[i]);
        lemma_meets_agree(d, s, u, step_to(i, plain_len(s[i]), s.len() as int));
    }
}

/// Decoding a window that rule `k` matches, from its `j`-th fixed opcode
/// on, passes over fixed opcodes only and comes out just past the window.
pub proof fn lemma_meets_window(d: Dialect, s: Seq<u8>, i: int, k: int, j: int)
    requires
        0 <= k < 31,
        rule_matches(s, i, rule_shape(k)),
        0 <= j < rule_shape(k).checks.len(),
    ensures
        meets_optimized(d, s, i + rule_shape(k).checks[j].0) == meets_optimized(
            d,
            s,
            i + rule_shape(k).window + 1,
        ),
    decreases rule_shape(k).checks.len() - j,
{
    let r = rule_shape(k);
    lemma_rule_wf(k);
    lemma_rule_decodes(k);
    let p = i + r.checks[j].0;
    assert(s[p] == r.checks[j].1);
    assert(rewritable(r.checks[j].1));
    assert(p + plain_len(s[p]) <= s.len()) by {
        if j + 1 < r.checks.len() {
            assert(r.checks[j + 1].0 == r.checks[j].0 + plain_len(r.checks[j].1));
        }
    }
    if j + 1 < r.checks.len() {
        assert(r.checks[j + 1].0 == r.checks[j].0 + plain_len(r.checks[j].1));
        lemma_meets_window(d, s, i, k, j + 1);
    }
}

/// A pass resumed at `i` fails exactly when plain decoding from `i` meets
/// a byte that it rejects before `INVALID`.
pub proof fn lemma_scan_fails_iff(d: Dialect, s: Seq<u8>, i: int)
    requires
        0 <= i,
    ensures
        fusion_scan(d, s, i) is Err <==> meets_optimized(d, s, i),
    decreases s.len() - i,
{
    if 0 <= i < s.len() && s[i] != op::INVALID && !is_optimized(d, s[i]) {
        lemma_first_match(d, s, i, 0);
        lemma_plain_len(s[i]);
        match first_match(d, s, i, 0) {
            Some(k) => {
                let r = rule_shape(k);
                let u = rule_apply(s, i, r, filler(d));
                lemma_rule_wf(k);
                lemma_rule_decodes(k);
                let ni = i + r.window + 1;
                assert(step_to(i, r.window + 1, s.len() as int) == ni);
                lemma_apply_checks_len(s, i, r, filler(d), r.checks.len() as int);
                lemma_apply_checks_shape(s, i, r, filler(d), r.checks.len() as int);
                assert forall|q: int| ni <= q < s.len() implies #[trigger] s[q] == u[q] by {
                    if u[q] != s[q] {
                        let j = choose|j: int|
                            0 <= j < r.checks.len() && q == i + (#[trigger] r.checks[j]).0 && u[q]
                                == written_byte(r, r.checks[j].0, filler(d));
                    }
                }
                lemma_meets_agree(d, s, u, ni);
                lemma_meets_window(d, s, i, k, 0);
                lemma_scan_fails_iff(d, u, ni);
            },
            None => {
                lemma_inst_len_plain(d, s[i]);
                lemma_scan_fails_iff(d, s, step_to(i, plain_len(s[i]), s.len() as int));
            },
        }
    }
}

/// A pass fails exactly when plain decoding of the code from its first
/// byte meets a byte that the pass rejects before it meets `INVALID`.
pub proof fn law_pass_fails_iff_decoding_meets_rejected_byte(d: Dialect, s: Seq<u8>)
    ensures
        fusion_scan(d, s, 0) is Err <==> meets_optimized(d, s, 0),
{
    lemma_scan_fails_iff(d, s, 0);
}

/// The fixed opcodes of a rule stand at increasing offsets.
pub proof fn lemma_checks_increasing(k: int, a: int, b: int)
    requires
        0 <= k < 31,
        0 <= a < b < rule_shape(k).checks.len(),
    ensures
        rule_shape(k).checks[a].0 < rule_shape(k).checks[b].0,
    decreases b - a,
{
    let r = rule_shape(k);
    lemma_rule_decodes(k);
    lemma_plain_len(r.checks[b - 1].1);
    assert(r.checks[b - 1 + 1].0 == r.checks[b - 1].0 + plain_len(r.checks[b - 1].1));
    if a < b - 1 {
        lemma_checks_increasing(k, a, b - 1);
    }
}

/// After the first `n` replacements of a rewrite, the position of the
/// `j`-th fixed opcode (`j < n`) holds what the rule writes there.
proof fn lemma_apply_checks_at(s: Seq<u8>, i: int, k: int, f: u8, n: int, j: int)
    requires
        0 <= k < 31,
        rule_matches(s, i, rule_shape(k)),
        0 <= j < n <= rule_shape(k).checks.len(),
    ensures
        apply_checks(s, i, rule_shape(k), f, n)[i + rule_shape(k).checks[j].0] == written_byte(
            rule_shape(k),
            rule_shape(k).checks[j].0,
            f,
        ),
    decreases n,
{
    let r = rule_shape(k);
    lemma_rule_wf(k);
    lemma_apply_checks_len(s, i, r, f, n - 1);
    if j < n - 1 {
        lemma_checks_increasing(k, j, n - 1);
        lemma_apply_checks_at(s, i, k, f, n - 1, j);
    }
}

/// A rewrite puts the rule's super-instruction at the window's start.
pub proof fn lemma_rule_apply_first(s: Seq<u8>, i: int, k: int, f: u8)
    requires
        0 <= k < 31,
        rule_matches(s, i, rule_shape(k)),
    ensures
        rule_apply(s, i, rule_shape(k), f)[i] == rule_shape(k).fused,
{
    lemma_rule_wf(k);
    lemma_apply_checks_at(s, i, k, f, rule_shape(k).checks.len() as int, 0);
}

/// Where a pass resumed at `i` changed something, decoding its output from
/// `i` meets a byte that the pass rejects.
pub proof fn lemma_changed_output_rejected(d: Dialect, s: Seq<u8>, i: int)
    requires
        0 <= i,
        fusion_scan(d, s, i) matches Ok(t) && t != s,
    ensures
        meets_optimized(d, fusion_scan(d, s, i)->Ok_0, i),
    decreases s.len() - i,
{
    let t = fusion_scan(d, s, i)->Ok_0;
    lemma_scan_effect(d, s, i);
    lemma_first_match(d, s, i, 0);
    lemma_plain_len(s[i]);
    match first_match(d, s, i, 0) {
        Some(k) => {
            let r = rule_shape(k);
            let u = rule_apply(s, i, r, filler(d));
            lemma_rule_wf(k);
            lemma_rule_decodes(k);
            let ni = i + r.window + 1;
            assert(step_to(i, r.window + 1, s.len() as int) == ni);
            lemma_apply_checks_len(s, i, r, filler(d), r.checks.len() as int);
            lemma_scan_keeps_prefix(d, u, ni);
            lemma_rule_apply_first(s, i, k, filler(d));
            assert(t[i] == u[i]);
        },
        None => {
            lemma_inst_len_plain(d, s[i]);
            let ni = step_to(i, plain_len(s[i]), s.len() as int);
            lemma_scan_keeps_prefix(d, s, ni);
            lemma_changed_output_rejected(d, s, ni);
            assert(t[i] == s[i]);
        },
    }
}

/// What a pass returns, where it changed anything, is rejected by the same
/// pass when it is fed back in: the pass never fuses twice.
pub proof fn law_changed_output_is_rejected(d: Dialect, s: Seq<u8>)
    requires
        fusion_scan(d, s, 0) matches Ok(t) && t != s,
    ensures
        fusion_scan(d, fusion_scan(d, s, 0)->Ok_0, 0) is Err,
{
    lemma_changed_output_rejected(d, s, 0);
    lemma_scan_fails_iff(d, fusion_scan(d, s, 0)->Ok_0, 0);
}

/// Decoding of a window that rule `k` matches, taken up from its `j`-th
/// fixed opcode, starts instructions inside the window only at fixed
/// opcodes, and goes on past the window from just after it.
proof fn lemma_decode_window(s: Seq<u8>, i: int, k: int, j: int, p: int)
    requires
        0 <= k < 31,
        rule_matches(s, i, rule_shape(k)),
        0 <= j < rule_shape(k).checks.len(),
        decodes_to(s, i + rule_shape(k).checks[j].0, p),
    ensures
        p <= i + rule_shape(k).window ==> exists|j2: int|
            j <= j2 < rule_shape(k).checks.len() && p == i + (#[trigger] rule_shape(k).checks[j2]).0,
        p > i + rule_shape(k).window ==> decodes_to(s, i + rule_shape(k).window + 1, p),
    decreases rule_shape(k).checks.len() - j,
{
    let r = rule_shape(k);
    lemma_rule_wf(k);
    lemma_rule_decodes(k);
    let x = i + r.checks[j].0;
    if p != x {
        assert(s[x] == r.checks[j].1);
        assert(decodes_to(s, x + plain_len(s[x]), p));
        if j + 1 < r.checks.len() {
            assert(r.checks[j + 1].0 == r.checks[j].0 + plain_len(r.checks[j].1));
            lemma_decode_window(s, i, k, j + 1, p);
        }
    }
}

/// Decoding reads only the bytes it starts instructions at.
proof fn lemma_decodes_agree(s: Seq<u8>, u: Seq<u8>, i: int, p: int)
    requires
        s.len() == u.len(),
        forall|q: int| i <= q < p ==> #[trigger] s[q] == u[q],
        decodes_to(s, i, p),
    ensures
        decodes_to(u, i, p),
    decreases p - i,
{
    if i < p {
        lemma_plain_len(s[i]);
        lemma_decodes_agree(s, u, i + plain_len(s[i]), p);
    }
}

/// A pass resumed at `i` leaves the immediates of every `PUSHn` that plain
/// decoding from `i` starts.
proof fn lemma_scan_keeps_immediates(d: Dialect, s: Seq<u8>, i: int, p: int, q: int)
    requires
        0 <= i,
        decodes_to(s, i, p),
        p < q < p + plain_len(s[p]),
        q < s.len(),
    ensures
        fusion_scan(d, s, i) matches Ok(t) ==> t[q] == s[q],
    decreases s.len() - i,
{
    if 0 <= i < s.len() && s[i] != op::INVALID && !is_optimized(d, s[i]) {
        lemma_first_match(d, s, i, 0);
        lemma_plain_len(s[i]);
        match first_match(d, s, i, 0) {
            Some(k) => {
                let r = rule_shape(k);
                let f = filler(d);
                let u = rule_apply(s, i, r, f);
                lemma_rule_wf(k);
                lemma_rule_decodes(k);
                let ni = i + r.window + 1;
                assert(step_to(i, r.window + 1, s.len() as int) == ni);
                lemma_apply_checks_len(s, i, r, f, r.checks.len() as int);
                lemma_apply_checks_shape(s, i, r, f, r.checks.len() as int);
                lemma_scan_keeps_prefix(d, u, ni);
                lemma_decode_window(s, i, k, 0, p);
                if p <= i + r.window {
                    let j2 = choose|j2: int| 0 <= j2 < r.checks.len() && p == i + (#[trigger] r.checks[j2]).0;
                    assert(s[p] == r.checks[j2].1);
                    if j2 + 1 < r.checks.len() {
                        assert(r.checks[j2 + 1].0 == r.checks[j2].0 + plain_len(r.checks[j2].1));
                    }
                    if u[q] != s[q] {
                        let j3 = choose|j3: int|
                            0 <= j3 < r.checks.len() && q == i + (#[trigger] r.checks[j3]).0 && u[q]
                                == written_byte(r, r.checks[j3].0, f);
                        if j3 < j2 {
                            lemma_checks_increasing(k, j3, j2);
                        } else if j3 > j2 + 1 {
                            lemma_checks_increasing(k, j2 + 1, j3);
                        }
                    }
                } else {
                    assert forall|x: int| ni <= x < s.len() implies #[trigger] s[x] == u[x] by {
                        if u[x] != s[x] {
                            let j = choose|j: int|
                                0 <= j < r.checks.len() && x == i + (#[trigger] r.checks[j]).0 && u[x]
                                    == written_byte(r, r.checks[j].0, f);
                        }
                    }
                    lemma_decodes_agree(s, u, ni, p);
                    assert(u[p] == s[p] && u[q] == s[q]);
                    lemma_scan_keeps_immediates(d, u, ni, p, q);
                }
            },
            None => {
                lemma_inst_len_plain(d, s[i]);
                let ni = step_to(i, plain_len(s[i]), s.len() as int);
                lemma_scan_keeps_prefix(d, s, ni);
                if p != i {
                    lemma_scan_keeps_immediates(d, s, ni, p, q);
                }
            },
        }
    }
}

/// A pass never changes an immediate: the bytes that follow a `PUSHn` that
/// plain decoding of the code starts are the same in its output.
pub proof fn law_pass_keeps_immediates(d: Dialect, s: Seq<u8>, p: int, q: int)
    requires
        fusion_scan(d, s, 0) is Ok,
        decodes_to(s, 0, p),
        p < q < p + plain_len(s[p]),
        q < s.len(),
    ensures
        fusion_scan(d, s, 0)->Ok_0[q] == s[q],
{
    lemma_scan_keeps_immediates(d, s, 0, p, q);
}

/// A pass resumed at `i` leaves the code as it is from the first `INVALID`
/// that plain decoding from `i` starts.
proof fn lemma_scan_stops_at_invalid(d: Dialect, s: Seq<u8>, i: int, p: int, q: int)
    requires
        0 <= i,
        decodes_to(s, i, p),
        p < s.len(),
        s[p] == op::INVALID,
        p <= q < s.len(),
    ensures
        fusion_scan(d, s, i) matches Ok(t) ==> t[q] == s[q],
    decreases s.len() - i,
{
    if 0 <= i < s.len() && s[i] != op::INVALID && !is_optimized(d, s[i]) {
        lemma_first_match(d, s, i, 0);
        lemma_plain_len(s[i]);
        match first_match(d, s, i, 0) {
            Some(k) => {
                let r = rule_shape(k);
                let f = filler(d);
                let u = rule_apply(s, i, r, f);
                lemma_rule_wf(k);
                lemma_rule_decodes(k);
                let ni = i + r.window + 1;
                assert(step_to(i, r.window + 1, s.len() as int) == ni);
                lemma_apply_checks_len(s, i, r, f, r.checks.len() as int);
                lemma_apply_checks_shape(s, i, r, f, r.checks.len() as int);
                lemma_decode_window(s, i, k, 0, p);
                if p <= i + r.window {
                    let j2 = choose|j2: int| 0 <= j2 < r.checks.len() && p == i + (#[trigger] r.checks[j2]).0;
                    assert(s[p] == r.checks[j2].1);
                    assert(false);
                }
                assert forall|x: int| ni <= x < s.len() implies #[trigger] s[x] == u[x] by {
                    if u[x] != s[x] {
                        let j = choose|j: int|
                            0 <= j < r.checks.len() && x == i + (#[trigger] r.checks[j]).0 && u[x]
                                == written_byte(r, r.checks[j].0, f);
                    }
                }
                lemma_decodes_agree(s, u, ni, p);
                lemma_scan_stops_at_invalid(d, u, ni, p, q);
            },
            None => {
                lemma_inst_len_plain(d, s[i]);
                lemma_scan_stops_at_invalid(d, s, step_to(i, plain_len(s[i]), s.len() as int), p, q);
            },
        }
    }
}

/// A pass stops at the first `INVALID` that plain decoding meets: from
/// there on its output is the code as it was.
pub proof fn law_pass_stops_at_invalid(d: Dialect, s: Seq<u8>, p: int, q: int)
    requires
        fusion_scan(d, s, 0) is Ok,
        decodes_to(s, 0, p),
        p < s.len(),
        s[p] == op::INVALID,
        p <= q < s.len(),
    ensures
        fusion_scan(d, s, 0)->Ok_0[q] == s[q],
{
    lemma_scan_stops_at_invalid(d, s, 0, p, q);
}

/// Rule `k` is the first rule of dialect `d`, in table order, that matches
/// `s` at `p`.
pub open spec fn first_rule_at(d: Dialect, s: Seq<u8>, p: int, k: int) -> bool {
    &&& 0 <= k < rule_count(d)
    &&& rule_matches(s, p, rule_shape(k))
    &&& forall|j: int| 0 <= j < k ==> !rule_matches(s, p, #[trigger] rule_shape(j))
}

/// No rule of dialect `d` matches `s` at `p`.
pub open spec fn no_rule_at(d: Dialect, s: Seq<u8>, p: int) -> bool {
    forall|j: int| 0 <= j < rule_count(d) ==> !rule_matches(s, p, #[trigger] rule_shape(j))
}

proof fn lemma_first_match_of(d: Dialect, s: Seq<u8>, p: int, k: int, k0: int)
    requires
        first_rule_at(d, s, p, k),
        0 <= k0 <= k,
    ensures
        first_match(d, s, p, k0) == Some(k),
    decreases k - k0,
{
    if k0 < k {
        assert(!rule_matches(s, p, rule_shape(k0)));
        lemma_first_match_of(d, s, p, k, k0 + 1);
    }
}

proof fn lemma_first_match_none(d: Dialect, s: Seq<u8>, p: int, k0: int)
    requires
        no_rule_at(d, s, p),
        0 <= k0,
    ensures
        first_match(d, s, p, k0) is None,
    decreases rule_count(d) - k0,
{
    if k0 < rule_count(d) {
        assert(!rule_matches(s, p, rule_shape(k0)));
        lemma_first_match_none(d, s, p, k0 + 1);
    }
}

proof fn lemma_decodes_trans(s: Seq<u8>, a: int, b: int, c: int)
    requires
        decodes_to(s, a, b),
        decodes_to(s, b, c),
    ensures
        decodes_to(s, a, c),
    decreases b - a,
{
    if a < b {
        lemma_plain_len(s[a]);
        lemma_decodes_bounds(s, b, c);
        lemma_decodes_trans(s, a + plain_len(s[a]), b, c);
    }
}

proof fn lemma_decodes_bounds(s: Seq<u8>, a: int, b: int)
    requires
        decodes_to(s, a, b),
    ensures
        0 <= a <= b,
{
}

/// Decoding a window that rule `k` matches, from its `j`-th fixed opcode,
/// comes out just past the window.
proof fn lemma_window_decodes(s: Seq<u8>, i: int, k: int, j: int)
    requires
        0 <= k < 31,
        rule_matches(s, i, rule_shape(k)),
        0 <= j < rule_shape(k).checks.len(),
    ensures
        decodes_to(s, i + rule_shape(k).checks[j].0, i + rule_shape(k).window + 1),
    decreases rule_shape(k).checks.len() - j,
{
    let r = rule_shape(k);
    lemma_rule_wf(k);
    lemma_rule_decodes(k);
    let x = i + r.checks[j].0;
    let target = i + r.window + 1;
    assert(s[x] == r.checks[j].1);
    lemma_plain_len(s[x]);
    assert(x < s.len());
    if j + 1 < r.checks.len() {
        assert(r.checks[j + 1].0 == r.checks[j].0 + plain_len(r.checks[j].1));
        lemma_window_decodes(s, i, k, j + 1);
        lemma_decodes_bounds(s, x + plain_len(s[x]), target);
    } else {
        assert(x + plain_len(s[x]) == target);
        assert(decodes_to(s, target, target));
    }
    assert(decodes_to(s, x, target) == decodes_to(s, x + plain_len(s[x]), target));
}

/// Whether a rule matches at `p` depends only on the code from `p` on.
proof fn lemma_rule_matches_suffix(s: Seq<u8>, u: Seq<u8>, p: int, k: int)
    requires
        s.len() == u.len(),
        forall|x: int| p <= x < s.len() ==> #[trigger] s[x] == u[x],
    ensures
        rule_matches(s, p, rule_shape(k)) == rule_matches(u, p, rule_shape(k)),
{
    let r = rule_shape(k);
    if rule_matches(s, p, r) {
        assert forall|j: int| 0 <= j < r.checks.len() implies u[p + (#[trigger] r.checks[j]).0] == r.checks[j].1 by {
            assert(s[p + r.checks[j].0] == r.checks[j].1);
        }
    }
    if rule_matches(u, p, r) {
        assert forall|j: int| 0 <= j < r.checks.len() implies s[p + (#[trigger] r.checks[j]).0] == r.checks[j].1 by {
            assert(u[p + r.checks[j].0] == r.checks[j].1);
        }
    }
}

/// The walk resumed at an instruction `p` writes there what the first
/// matching rule asks, or leaves the byte where no rule matches.
#[verifier::rlimit(40)]
proof fn lemma_scan_complete_here(d: Dialect, s: Seq<u8>, p: int)
    requires
        0 <= p < s.len(),
        fusion_scan(d, s, p) matches Ok(t) && t[p] != filler(d),
    ensures
        forall|k: int| first_rule_at(d, s, p, k) ==> fusion_scan(d, s, p)->Ok_0[p] == rule_shape(k).fused,
        no_rule_at(d, s, p) ==> fusion_scan(d, s, p)->Ok_0[p] == s[p],
{
    let t = fusion_scan(d, s, p)->Ok_0;
    let i = p;
    lemma_plain_len(s[i]);
        if s[p] == op::INVALID || is_optimized(d, s[p]) {
            assert forall|k: int| first_rule_at(d, s, p, k) implies false by {
                lemma_rule_wf(k);
                assert(s[p + rule_shape(k).checks[0].0] == rule_shape(k).checks[0].1);
            }
        } else {
            lemma_first_match(d, s, i, 0);
            assert forall|k: int| first_rule_at(d, s, p, k) implies t[p] == rule_shape(k).fused by {
                lemma_first_match_of(d, s, p, k, 0);
                let r = rule_shape(k);
                let u = rule_apply(s, i, r, filler(d));
                lemma_rule_wf(k);
                assert(step_to(i, r.window + 1, s.len() as int) == i + r.window + 1);
                lemma_apply_checks_len(s, i, r, filler(d), r.checks.len() as int);
                lemma_scan_keeps_prefix(d, u, i + r.window + 1);
                lemma_rule_apply_first(s, i, k, filler(d));
            }
            if no_rule_at(d, s, p) {
                lemma_first_match_none(d, s, p, 0);
                lemma_inst_len_plain(d, s[i]);
                let ni = step_to(i, plain_len(s[i]), s.len() as int);
                lemma_scan_keeps_prefix(d, s, ni);
            }
        }
}

/// One rewrite of the walk, seen from an instruction `p` past its window:
/// the rewritten code meets every condition of `lemma_scan_complete` at
/// `p`, the same rules match there, and the walk's result is the same.
#[verifier::rlimit(40)]
proof fn lemma_scan_complete_step(d: Dialect, s: Seq<u8>, i: int, p: int, k2: int)
    requires
        0 <= i < p,
        decodes_to(s, i, p),
        p < s.len(),
        forall|q: int| decodes_to(s, i, q) && q < p ==> #[trigger] s[q] != op::INVALID,
        s[i] != op::INVALID,
        !is_optimized(d, s[i]),
        first_match(d, s, i, 0) == Some(k2),
        fusion_scan(d, s, i) matches Ok(t) && t[p] != filler(d),
    ensures
        ({
            let u = rule_apply(s, i, rule_shape(k2), filler(d));
            let ni = i + rule_shape(k2).window + 1;
            &&& ni <= p
            &&& decodes_to(u, ni, p)
            &&& forall|q: int| decodes_to(u, ni, q) && q < p ==> #[trigger] u[q] != op::INVALID
            &&& fusion_scan(d, u, ni) == fusion_scan(d, s, i)
            &&& u.len() == s.len()
            &&& u[p] == s[p]
            &&& forall|k: int| first_rule_at(d, s, p, k) ==> first_rule_at(d, u, p, k)
            &&& no_rule_at(d, s, p) ==> no_rule_at(d, u, p)
        }),
{
    let t = fusion_scan(d, s, i)->Ok_0;
    lemma_first_match(d, s, i, 0);
    let r = rule_shape(k2);
    let f = filler(d);
    let u = rule_apply(s, i, r, f);
    lemma_rule_wf(k2);
    lemma_rule_decodes(k2);
    let ni = i + r.window + 1;
    assert(step_to(i, r.window + 1, s.len() as int) == ni);
    lemma_apply_checks_len(s, i, r, f, r.checks.len() as int);
    lemma_apply_checks_shape(s, i, r, f, r.checks.len() as int);
    lemma_scan_keeps_prefix(d, u, ni);
    lemma_decode_window(s, i, k2, 0, p);
    if p <= i + r.window {
        let j2 = choose|j2: int| 0 <= j2 < r.checks.len() && p == i + (#[trigger] r.checks[j2]).0;
        assert(j2 != 0);
        lemma_checks_increasing(k2, 0, j2);
        lemma_apply_checks_at(s, i, k2, f, r.checks.len() as int, j2);
        assert(t[p] == u[p]);
        assert(false);
    }
    assert forall|x: int| ni <= x < s.len() implies #[trigger] s[x] == u[x] by {
        if u[x] != s[x] {
            let j = choose|j: int|
                0 <= j < r.checks.len() && x == i + (#[trigger] r.checks[j]).0 && u[x]
                    == written_byte(r, r.checks[j].0, f);
        }
    }
    lemma_decodes_agree(s, u, ni, p);
    lemma_window_decodes(s, i, k2, 0);
    assert forall|q: int| decodes_to(u, ni, q) && q < p implies #[trigger] u[q] != op::INVALID by {
        lemma_decodes_bounds(u, ni, q);
        lemma_decodes_agree(u, s, ni, q);
        lemma_decodes_trans(s, i, ni, q);
        assert(s[q] != op::INVALID);
    }
    assert forall|j: int| 0 <= j < 31 implies rule_matches(s, p, #[trigger] rule_shape(j)) == rule_matches(
        u,
        p,
        rule_shape(j),
    ) by {
        lemma_rule_matches_suffix(s, u, p, j);
    }
    assert(fusion_scan(d, u, ni) == fusion_scan(d, s, i));
    assert forall|k: int| first_rule_at(d, s, p, k) implies first_rule_at(d, u, p, k) by {
        assert forall|j: int| 0 <= j < k implies !rule_matches(u, p, #[trigger] rule_shape(j)) by {
            assert(!rule_matches(s, p, rule_shape(j)));
        }
    }
    if no_rule_at(d, s, p) {
        assert forall|j: int| 0 <= j < rule_count(d) implies !rule_matches(u, p, #[trigger] rule_shape(j)) by {
            assert(!rule_matches(s, p, rule_shape(j)));
        }
    }
}

/// The walk resumed at `i`, at an instruction `p` that decoding from `i`
/// reaches before any `INVALID` and that does not end up as filler, writes
/// the super-instruction of the first rule that matches there, and leaves
/// the byte where no rule matches.
proof fn lemma_scan_complete(d: Dialect, s: Seq<u8>, i: int, p: int)
    requires
        0 <= i,
        decodes_to(s, i, p),
        p < s.len(),
        forall|q: int| decodes_to(s, i, q) && q < p ==> #[trigger] s[q] != op::INVALID,
        fusion_scan(d, s, i) matches Ok(t) && t[p] != filler(d),
    ensures
        forall|k: int| first_rule_at(d, s, p, k) ==> fusion_scan(d, s, i)->Ok_0[p] == rule_shape(k).fused,
        no_rule_at(d, s, p) ==> fusion_scan(d, s, i)->Ok_0[p] == s[p],
    decreases s.len() - i,
{
    let t = fusion_scan(d, s, i)->Ok_0;
    lemma_plain_len(s[i]);
    if i == p {
        lemma_scan_complete_here(d, s, p);
    } else {
        assert(decodes_to(s, i, i));
        assert(s[i] != op::INVALID);
        lemma_first_match(d, s, i, 0);
        match first_match(d, s, i, 0) {
            Some(k2) => {
                let r = rule_shape(k2);
                let u = rule_apply(s, i, r, filler(d));
                let ni = i + r.window + 1;
                lemma_scan_complete_step(d, s, i, p, k2);
                lemma_scan_complete(d, u, ni, p);
                assert forall|k: int| first_rule_at(d, s, p, k) implies t[p] == rule_shape(k).fused by {
                    assert(first_rule_at(d, u, p, k));
                }
            },
            None => {
                lemma_inst_len_plain(d, s[i]);
                let ni = i + plain_len(s[i]);
                assert(decodes_to(s, ni, p));
                lemma_decodes_bounds(s, ni, p);
                assert(step_to(i, plain_len(s[i]), s.len() as int) == ni);
                assert forall|q: int| decodes_to(s, ni, q) && q < p implies #[trigger] s[q] != op::INVALID by {
                    lemma_decodes_bounds(s, ni, q);
                    assert(decodes_to(s, i, q));
                }
                lemma_scan_complete(d, s, ni, p);
            },
        }
    }
}

/// A pass applies, at every instruction it visits, the first rule of its
/// table that matches there, and leaves the byte where none matches.
///
/// Take an instruction `p` that plain decoding of `s` from its first byte
/// reaches before any `INVALID`, and where the output does not hold the
/// pass's filler (the positions holding filler are the fixed opcodes that
/// a window absorbed).  If rule `k` is the first rule of the dialect that
/// matches `s` at `p`, the output holds its super-instruction at `p`; if
/// no rule matches there, the output holds `s[p]`.
pub proof fn law_pass_applies_first_matching_rule(d: Dialect, s: Seq<u8>, p: int)
    requires
        fusion_scan(d, s, 0) matches Ok(t) && t[p] != filler(d),
        decodes_to(s, 0, p),
        p < s.len(),
        forall|q: int| decodes_to(s, 0, q) && q < p ==> #[trigger] s[q] != op::INVALID,
    ensures
        forall|k: int| first_rule_at(d, s, p, k) ==> fusion_scan(d, s, 0)->Ok_0[p] == rule_shape(k).fused,
        no_rule_at(d, s, p) ==> fusion_scan(d, s, 0)->Ok_0[p] == s[p],
{
    lemma_scan_complete(d, s, 0, p);
}

/// The walk steps over a super-instruction and all the immediates its
/// window carries: where the window of rule `k` holds a byte that is not
/// one of its fixed opcodes (an immediate), the skip after its
/// super-instruction is the rest of the window; otherwise there is none.
pub proof fn law_skip_steps_of_super_instructions(d: Dialect, k: int)
    requires
        0 <= k < rule_count(d),
    ensures
        skip_steps(d, rule_shape(k).fused) == if rule_shape(k).checks.len() < rule_shape(k).window + 1 {
            Some(rule_shape(k).window as int)
        } else {
            None
        },
{
}

} // verus!
