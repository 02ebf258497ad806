//! The z-order curve: Morton codes of the vertices and the list that links
//! the nodes of a ring in the order of their codes.

use super::arena_ok;
use super::Node;
use vstd::prelude::*;

verus! {

/// Highest value of a coordinate after scaling for the z-order curve.
pub const Z_RANGE: i64 = 32767;

/// The position of `v` along a box side of length `size >= 1` that starts at
/// `min`, scaled to `0..=32767` and rounded down; positions off the side
/// count as its ends.
pub open spec fn scaled(v: int, min: int, size: int) -> int {
    let s = (v - min) * Z_RANGE / size;
    if v < min {
        0
    } else if s > Z_RANGE {
        Z_RANGE as int
    } else {
        s
    }
}

/// The bits of `v` moved apart, so that bit `k` stands at position `2k`.
pub open spec fn spread(v: u64) -> u64 {
    let a = (v | (v << 8)) & 0x00ff_00ff_00ff_00ff;
    let b = (a | (a << 4)) & 0x0f0f_0f0f_0f0f_0f0f;
    let c = (b | (b << 2)) & 0x3333_3333_3333_3333;
    (c | (c << 1)) & 0x5555_5555_5555_5555
}

/// The Morton code of the scaled coordinates `zx` and `zy`: their bits
/// interleaved, those of `zx` at the even positions.
pub open spec fn morton(zx: u64, zy: u64) -> u64 {
    spread(zx) | (spread(zy) << 1)
}

/// The position of `v` along a box side, scaled to `0..=32767`.
pub fn scale(v: i32, min: i32, size: i64) -> (s: u64)
    requires
        1 <= size <= 0xffff_ffff,
    ensures
        s == scaled(v as int, min as int, size as int),
        s <= 32767,
{
    if v < min {
        0
    } else {
        let d: i64 = v as i64 - min as i64;
        let s: i64 = d * Z_RANGE / size;
        if s > Z_RANGE {
            32767
        } else {
            s as u64
        }
    }
}

/// The bits of `v` moved apart.
pub fn spread_exec(v: u64) -> (r: u64)
    requires
        v <= 32767,
    ensures
        r == spread(v),
        r <= 0x1555_5555,
{
    let a = (v | (v << 8)) & 0x00ff_00ff_00ff_00ff;
    let b = (a | (a << 4)) & 0x0f0f_0f0f_0f0f_0f0f;
    let c = (b | (b << 2)) & 0x3333_3333_3333_3333;
    let r = (c | (c << 1)) & 0x5555_5555_5555_5555;
    assert(r <= 0x1555_5555) by (bit_vector)
        requires
            v <= 32767,
            a == (v | (v << 8)) & 0x00ff_00ff_00ff_00ff,
            b == (a | (a << 4)) & 0x0f0f_0f0f_0f0f_0f0f,
            c == (b | (b << 2)) & 0x3333_3333_3333_3333,
            r == (c | (c << 1)) & 0x5555_5555_5555_5555,
    ;
    r
}

/// The z-order value of the point `(x, y)` in the box that starts at
/// `(min_x, min_y)` and whose longer side is `size`.
pub fn z_order(x: i32, y: i32, min_x: i32, min_y: i32, size: i64) -> (z: i32)
    requires
        1 <= size <= 0xffff_ffff,
    ensures
        z == morton(
            scaled(x as int, min_x as int, size as int) as u64,
            scaled(y as int, min_y as int, size as int) as u64,
        ),
        0 <= z,
{
    let zx = spread_exec(scale(x, min_x, size));
    let zy = spread_exec(scale(y, min_y, size));
    let z = zx | (zy << 1);
    assert(z <= 0x3fff_ffff) by (bit_vector)
        requires
            zx <= 0x1555_5555,
            zy <= 0x1555_5555,
            z == zx | (zy << 1),
    ;
    z as i32
}

/// The z-order value of the point `(x, y)`.
pub open spec fn z_of(x: int, y: int, min_x: int, min_y: int, size: int) -> int {
    morton(scaled(x, min_x, size) as u64, scaled(y, min_y, size) as u64) as int
}

/// Where the run that starts `c` nodes before `q` ends: the node behind the
/// run, and the length of the run; a run has `in_size` nodes, or fewer where
/// the list ends.
pub open spec fn run_end(nodes: Seq<Node>, q: int, c: nat, in_size: nat) -> (int, nat)
    decreases in_size - c,
{
    if c < in_size && q != 0 {
        run_end(nodes, nodes[q].next_z as int, c + 1, in_size)
    } else {
        (q, c)
    }
}

/// The state of a merge of two runs: the arena, the heads of what is left of
/// the two runs with the numbers of nodes left, and the head and the tail of
/// the list merged so far; 0 for none.
pub struct Merge {
    pub nodes: Seq<Node>,
    pub p: int,
    pub q: int,
    pub p_size: nat,
    pub q_size: nat,
    pub list: int,
    pub tail: int,
}

/// Whether the merge goes on, and with the node from the first run.
pub open spec fn merge_takes(m: Merge) -> (bool, bool) {
    if m.p_size > 0 {
        if m.p == 0 {
            (false, false)
        } else if m.q_size > 0 && m.q != 0 {
            (true, m.nodes[m.p].z <= m.nodes[m.q].z)
        } else {
            (true, true)
        }
    } else if m.q_size > 0 {
        (m.q != 0, false)
    } else {
        (false, false)
    }
}

/// The merge after one node was moved behind the tail: the head of the
/// first run where `take_p` is set, the head of the second otherwise.
pub open spec fn merge_step(m: Merge, take_p: bool) -> Merge {
    let e = if take_p {
        m.p
    } else {
        m.q
    };
    let en = m.nodes[e];
    let after = en.next_z as int;
    let n1 = m.nodes.update(e, Node { prev_z: m.tail as usize, ..en });
    let n2 = if m.tail != 0 {
        n1.update(m.tail, Node { next_z: e as usize, ..n1[m.tail] })
    } else {
        n1
    };
    Merge {
        nodes: n2,
        p: if take_p {
            after
        } else {
            m.p
        },
        q: if take_p {
            m.q
        } else {
            after
        },
        p_size: if take_p {
            (m.p_size - 1) as nat
        } else {
            m.p_size
        },
        q_size: if take_p {
            m.q_size
        } else {
            (m.q_size - 1) as nat
        },
        list: if m.tail != 0 {
            m.list
        } else {
            e
        },
        tail: e,
    }
}

/// The merge after the two runs were merged: the node with the lesser z
/// value goes first, the node of the first run where the two are equal.
pub open spec fn merged(m: Merge) -> Merge
    decreases m.p_size + m.q_size,
{
    let takes = merge_takes(m);
    if takes.0 {
        merged(merge_step(m, takes.1))
    } else {
        m
    }
}

/// The state of a pass over the list: the arena, the head of what is left of
/// the old list, the head and the tail of the new list, and the number of
/// merges made.
pub struct Pass {
    pub nodes: Seq<Node>,
    pub p: int,
    pub list: int,
    pub tail: int,
    pub num_merges: nat,
}

/// The pass after the rest of the old list was merged, two runs of
/// `in_size` nodes at a time, in at most `limit` merges.
pub open spec fn passed(s: Pass, in_size: nat, limit: nat) -> Pass
    decreases limit - s.num_merges,
{
    if s.p != 0 && s.num_merges < limit {
        let run = run_end(s.nodes, s.nodes[s.p].next_z as int, 1, in_size);
        let m = merged(
            Merge {
                nodes: s.nodes,
                p: s.p,
                q: run.0,
                p_size: run.1,
                q_size: in_size,
                list: s.list,
                tail: s.tail,
            },
        );
        passed(
            Pass { nodes: m.nodes, p: m.q, list: m.list, tail: m.tail, num_merges: s.num_merges + 1 },
            in_size,
            limit,
        )
    } else {
        s
    }
}

/// Twice the run length `in_size`, kept within the machine's numbers.
pub open spec fn doubled(in_size: nat) -> nat {
    if in_size <= usize::MAX - in_size {
        in_size + in_size
    } else {
        usize::MAX as nat
    }
}

/// Whether no pass follows one with runs of `in_size` nodes that made
/// `num_merges` merges: it merged all into one run, or its runs were as long
/// as the arena already.
pub open spec fn last_pass(num_merges: nat, in_size: nat, limit: nat) -> bool {
    num_merges <= 1 || in_size >= limit || in_size == 0 || in_size >= usize::MAX
}

/// The arena after the z-order list of `list` was sorted by passes with
/// runs of `in_size` nodes and more. The passes end where a pass makes one
/// merge at most.
pub open spec fn sorted_from(nodes: Seq<Node>, list: int, in_size: nat, limit: nat) -> Seq<Node>
    decreases
            (if in_size >= limit {
                0nat
            } else {
                (limit - in_size) as nat
            }),
{
    let r = passed(Pass { nodes, p: list, list: 0, tail: 0, num_merges: 0 }, in_size, limit);
    let closed = if r.tail != 0 {
        r.nodes.update(r.tail, Node { next_z: 0, ..r.nodes[r.tail] })
    } else {
        r.nodes
    };
    if last_pass(r.num_merges, in_size, limit) {
        closed
    } else {
        sorted_from(closed, r.list, doubled(in_size), limit)
    }
}

/// The arena after the z-order list that starts at `list` was sorted.
pub open spec fn sort_linked_of(nodes: Seq<Node>, list: int) -> Seq<Node> {
    sorted_from(nodes, list, 1, nodes.len())
}

/// Entry `i` of `s`; 0 where there is none.
pub open spec fn hd(s: Seq<int>, i: int) -> int {
    if 0 <= i < s.len() {
        s[i]
    } else {
        0
    }
}

/// Whether `s` names nodes of an arena of `n` nodes, none of them twice.
pub open spec fn members(s: Seq<int>, n: int) -> bool {
    &&& 1 <= s.len() < n <= usize::MAX
    &&& forall|i: int| 0 <= i < s.len() ==> 1 <= #[trigger] s[i] < n
    &&& forall|i: int, j: int| 0 <= i < j < s.len() ==> s[i] != s[j]
}

/// Whether the nodes at the positions `from..to` of `s` are linked to the
/// nodes that follow them in `s`, the last node of `s` to none.
#[verifier::opaque]
pub open spec fn intact(nodes: Seq<Node>, s: Seq<int>, from: int, to: int) -> bool {
    forall|i: int|
        from <= i < to && 0 <= i < s.len() ==> (#[trigger] nodes[s[i]]).next_z == hd(s, i + 1)
}

/// Whether `s` is the z-order list of its first node: the nodes of the
/// list, in the order of the links.
pub open spec fn z_list(nodes: Seq<Node>, s: Seq<int>) -> bool {
    members(s, nodes.len() as int) && intact(nodes, s, 0, s.len() as int)
}

/// Whether, among the positions `from..to` of `s`, no node has a greater z
/// value than the node that follows it.
#[verifier::opaque]
pub open spec fn rising(nodes: Seq<Node>, s: Seq<int>, from: int, to: int) -> bool {
    forall|i: int|
        from <= i && i + 1 < to && 0 <= i && i + 1 < s.len() ==> (#[trigger] nodes[s[i]]).z
            <= nodes[s[i + 1]].z
}

/// Whether no node of `s` has a greater z value than the node that follows
/// it, but where a new run of `k` nodes begins.
#[verifier::opaque]
pub open spec fn runs_rising(nodes: Seq<Node>, s: Seq<int>, k: int) -> bool {
    forall|i: int|
        0 <= i && i + 1 < s.len() && (i + 1) % k != 0 ==> (#[trigger] nodes[s[i]]).z <= nodes[s[i
            + 1]].z
}

/// Whether the nodes of `o` are linked one to the next, and each back to
/// the one before it, the first to none. Of the last node's forward link
/// nothing is said.
#[verifier::opaque]
pub open spec fn linked(nodes: Seq<Node>, o: Seq<int>) -> bool {
    &&& forall|i: int| 0 <= i && i + 1 < o.len() ==> (#[trigger] nodes[o[i]]).next_z == o[i + 1]
    &&& forall|i: int| 0 <= i < o.len() ==> (#[trigger] nodes[o[i]]).prev_z == hd(o, i - 1)
}

/// Whether `o` holds the nodes of `s` at the positions `pos`, each position
/// once, all of them below `ip` or in `b..iq`.
#[verifier::opaque]
pub open spec fn taken_from(
    o: Seq<int>,
    pos: Seq<int>,
    s: Seq<int>,
    ip: int,
    b: int,
    iq: int,
) -> bool {
    &&& pos.len() == o.len()
    &&& forall|i: int|
        0 <= i < o.len() ==> 0 <= #[trigger] pos[i] < s.len() && (pos[i] < ip || b <= pos[i] < iq)
            && o[i] == s[pos[i]]
    &&& forall|i: int, j: int| 0 <= i < j < pos.len() ==> pos[i] != pos[j]
}

/// Whether `now` is the arena `before` with the z values kept.
pub open spec fn z_kept(before: Seq<Node>, now: Seq<Node>) -> bool {
    &&& now.len() == before.len()
    &&& forall|x: int| 0 <= x < before.len() ==> (#[trigger] now[x]).z == before[x].z
}

/// Whether `now` is the arena `before` after the node `e` was put behind
/// the node `tail`, or first where `tail` is 0.
pub open spec fn stepped(before: Seq<Node>, now: Seq<Node>, e: int, tail: int) -> bool {
    &&& now.len() == before.len()
    &&& 1 <= e < before.len() <= usize::MAX
    &&& 0 <= tail < before.len()
    &&& e != tail
    &&& now[e] == (Node { prev_z: tail as usize, ..before[e] })
    &&& (tail != 0 ==> now[tail] == (Node { next_z: e as usize, ..before[tail] }))
    &&& forall|y: int|
        0 <= y < before.len() && y != e && (y != tail || tail == 0) ==> #[trigger] now[y]
            == before[y]
}

/// What was taken holds nodes of the arena, none twice, and none that
/// stands at a position that was not taken.
pub proof fn lemma_taken(
    o: Seq<int>,
    pos: Seq<int>,
    s: Seq<int>,
    ip: int,
    b: int,
    iq: int,
    n: int,
)
    requires
        taken_from(o, pos, s, ip, b, iq),
        members(s, n),
    ensures
        forall|i: int| 0 <= i < o.len() ==> 1 <= #[trigger] o[i] < n,
        forall|i: int, j: int| 0 <= i < j < o.len() ==> o[i] != o[j],
        forall|i: int, x: int|
            0 <= i < o.len() && 0 <= x < s.len() && !(x < ip || b <= x < iq) ==> #[trigger] o[i]
                != #[trigger] s[x],
        forall|i: int| 0 <= i < o.len() ==> s.contains(#[trigger] o[i]),
{
    reveal(taken_from);
    assert forall|i: int| 0 <= i < o.len() implies 1 <= #[trigger] o[i] < n && s.contains(o[i]) by {
        assert(o[i] == s[pos[i]]);
    }
    assert forall|i: int, j: int| 0 <= i < j < o.len() implies o[i] != o[j] by {
        assert(o[i] == s[pos[i]] && o[j] == s[pos[j]]);
        if pos[i] < pos[j] {
            assert(s[pos[i]] != s[pos[j]]);
        } else {
            assert(s[pos[j]] != s[pos[i]]);
        }
    }
    assert forall|i: int, x: int|
        0 <= i < o.len() && 0 <= x < s.len() && !(x < ip || b <= x < iq) implies #[trigger] o[i]
        != #[trigger] s[x] by {
        assert(o[i] == s[pos[i]]);
        if pos[i] < x {
            assert(s[pos[i]] != s[x]);
        } else {
            assert(s[x] != s[pos[i]]);
        }
    }
}

/// What was taken and one more node from a position not taken before.
pub proof fn lemma_taken_pushed(
    o: Seq<int>,
    pos: Seq<int>,
    s: Seq<int>,
    ip: int,
    b: int,
    iq: int,
    x: int,
    ip2: int,
    iq2: int,
)
    requires
        taken_from(o, pos, s, ip, b, iq),
        0 <= x < s.len(),
        !(x < ip || b <= x < iq),
        ip <= ip2,
        iq <= iq2,
        x < ip2 || b <= x < iq2,
        ip2 <= b,
    ensures
        taken_from(o.push(s[x]), pos.push(x), s, ip2, b, iq2),
{
    reveal(taken_from);
    let o2 = o.push(s[x]);
    let pos2 = pos.push(x);
    assert forall|i: int| 0 <= i < o2.len() implies 0 <= #[trigger] pos2[i] < s.len() && (pos2[i]
        < ip2 || b <= pos2[i] < iq2) && o2[i] == s[pos2[i]] by {
        if i < o.len() {
            assert(pos2[i] == pos[i] && o2[i] == o[i]);
        }
    }
    assert forall|i: int, j: int| 0 <= i < j < pos2.len() implies pos2[i] != pos2[j] by {
        assert(pos2[i] == pos[i]);
        if j < pos.len() {
            assert(pos2[j] == pos[j]);
        }
    }
}

/// What was taken of the positions below `ip` and in `b..iq` was taken of
/// the positions below `top`, where these hold them.
pub proof fn lemma_taken_below(
    o: Seq<int>,
    pos: Seq<int>,
    s: Seq<int>,
    ip: int,
    b: int,
    iq: int,
    top: int,
    b2: int,
)
    requires
        taken_from(o, pos, s, ip, b, iq),
        ip <= top,
        iq <= top || b >= iq,
        top <= b2,
    ensures
        taken_from(o, pos, s, top, b2, b2),
{
    reveal(taken_from);
}

/// Links that are intact stay so where neither node of a step stands among
/// them; the node put behind the tail keeps its forward link.
pub proof fn lemma_intact_kept(
    before: Seq<Node>,
    now: Seq<Node>,
    s: Seq<int>,
    from: int,
    to: int,
    e: int,
    tail: int,
)
    requires
        stepped(before, now, e, tail),
        intact(before, s, from, to),
        forall|i: int| from <= i < to && 0 <= i < s.len() ==> #[trigger] s[i] != tail,
        forall|i: int| 0 <= i < s.len() ==> 1 <= #[trigger] s[i] < before.len(),
    ensures
        intact(now, s, from, to),
{
    reveal(intact);
    assert forall|i: int| from <= i < to && 0 <= i < s.len() implies (#[trigger] now[s[i]]).next_z
        == hd(s, i + 1) by {
        assert(before[s[i]].next_z == hd(s, i + 1));
        if s[i] == e {
        } else {
            assert(now[s[i]] == before[s[i]]);
        }
    }
}

/// A step keeps every z value.
pub proof fn lemma_step_keeps_z(before: Seq<Node>, now: Seq<Node>, e: int, tail: int)
    requires
        stepped(before, now, e, tail),
    ensures
        z_kept(before, now),
{
    assert forall|x: int| 0 <= x < before.len() implies (#[trigger] now[x]).z == before[x].z by {
        if x != e && (x != tail || tail == 0) {
            assert(now[x] == before[x]);
        }
    }
}

/// What rises keeps rising while the z values are kept.
pub proof fn lemma_rising_kept(
    before: Seq<Node>,
    now: Seq<Node>,
    s: Seq<int>,
    from: int,
    to: int,
)
    requires
        z_kept(before, now),
        rising(before, s, from, to),
        forall|i: int| 0 <= i < s.len() ==> 1 <= #[trigger] s[i] < before.len(),
    ensures
        rising(now, s, from, to),
{
    reveal(rising);
    assert forall|i: int| from <= i && i + 1 < to && 0 <= i && i + 1 < s.len() implies (
    #[trigger] now[s[i]]).z <= now[s[i + 1]].z by {
        assert(before[s[i]].z <= before[s[i + 1]].z);
        assert(1 <= s[i + 1] < before.len());
    }
}

/// Runs that rise keep rising while the z values are kept.
pub proof fn lemma_runs_kept(before: Seq<Node>, now: Seq<Node>, s: Seq<int>, k: int)
    requires
        z_kept(before, now),
        runs_rising(before, s, k),
        forall|i: int| 0 <= i < s.len() ==> 1 <= #[trigger] s[i] < before.len(),
    ensures
        runs_rising(now, s, k),
{
    reveal(runs_rising);
    assert forall|i: int| 0 <= i && i + 1 < s.len() && (i + 1) % k != 0 implies (
    #[trigger] now[s[i]]).z <= now[s[i + 1]].z by {
        assert(before[s[i]].z <= before[s[i + 1]].z);
        assert(1 <= s[i + 1] < before.len());
    }
}

/// What rises and a node behind it that is no less than its last.
pub proof fn lemma_rising_pushed(nodes: Seq<Node>, o: Seq<int>, c: int, e: int)
    requires
        rising(nodes, o, c, o.len() as int),
        0 <= c,
        o.len() > c ==> nodes[o[o.len() - 1]].z <= nodes[e].z,
    ensures
        rising(nodes, o.push(e), c, o.len() as int + 1),
{
    reveal(rising);
    let o2 = o.push(e);
    assert forall|i: int| c <= i && i + 1 < o.len() as int + 1 && 0 <= i && i + 1 < o2.len() implies (
    #[trigger] nodes[o2[i]]).z <= nodes[o2[i + 1]].z by {
        assert(o2[i] == o[i]);
        if i + 1 < o.len() {
            assert(o2[i + 1] == o[i + 1]);
            assert(nodes[o[i]].z <= nodes[o[i + 1]].z);
        }
    }
}

/// A list that is linked, and the node that a step puts behind it.
pub proof fn lemma_linked_pushed(
    before: Seq<Node>,
    now: Seq<Node>,
    o: Seq<int>,
    e: int,
    tail: int,
)
    requires
        stepped(before, now, e, tail),
        linked(before, o),
        tail == hd(o, o.len() - 1),
        forall|i: int| 0 <= i < o.len() ==> 1 <= #[trigger] o[i] < before.len() && o[i] != e,
        forall|i: int, j: int| 0 <= i < j < o.len() ==> o[i] != o[j],
    ensures
        linked(now, o.push(e)),
{
    reveal(linked);
    let o2 = o.push(e);
    assert forall|i: int| 0 <= i && i + 1 < o2.len() implies (#[trigger] now[o2[i]]).next_z
        == o2[i + 1] by {
        assert(o2[i] == o[i]);
        if i + 1 < o.len() {
            assert(o2[i + 1] == o[i + 1]);
            assert(o[i] != o[o.len() - 1]);
            assert(now[o[i]] == before[o[i]]);
        }
    }
    assert forall|i: int| 0 <= i < o2.len() implies (#[trigger] now[o2[i]]).prev_z == hd(
        o2,
        i - 1,
    ) by {
        if i < o.len() {
            assert(o2[i] == o[i]);
            assert(before[o[i]].prev_z == hd(o, i - 1));
            if i > 0 {
                assert(o2[i - 1] == o[i - 1]);
            }
            if o[i] != tail {
                assert(now[o[i]] == before[o[i]]);
            }
        }
    }
}

/// Whether the merge `m` is under way on the list `s`: the runs `c..b` and
/// `b..b + k` are merged into `o`, which holds the `c` nodes merged before
/// and, behind them, what was taken of the two runs so far: the nodes at
/// `c..ip` and at `b..iq`.
pub open spec fn merging(
    m: Merge,
    s: Seq<int>,
    o: Seq<int>,
    pos: Seq<int>,
    c: int,
    ip: int,
    b: int,
    iq: int,
    k: int,
) -> bool {
    &&& members(s, m.nodes.len() as int)
    &&& k >= 1
    &&& 0 <= c <= ip <= b <= iq <= s.len()
    &&& iq <= b + k
    &&& m.p_size == b - ip
    &&& m.q_size == b + k - iq
    &&& m.p == hd(s, ip)
    &&& m.q == hd(s, iq)
    &&& intact(m.nodes, s, ip, b)
    &&& intact(m.nodes, s, iq, s.len() as int)
    &&& rising(m.nodes, s, c, b)
    &&& rising(m.nodes, s, b, b + k)
    &&& o.len() == ip + iq - b
    &&& taken_from(o, pos, s, ip, b, iq)
    &&& linked(m.nodes, o)
    &&& m.tail == hd(o, o.len() - 1)
    &&& m.list == hd(o, 0)
    &&& rising(m.nodes, o, c, o.len() as int)
    &&& (o.len() > c && ip < b ==> m.nodes[o[o.len() - 1]].z <= m.nodes[s[ip]].z)
    &&& (o.len() > c && iq < b + k && iq < s.len() ==> m.nodes[o[o.len() - 1]].z
        <= m.nodes[s[iq]].z)
}

/// One step of a merge keeps the merge in order.
pub proof fn lemma_merge_step(
    m: Merge,
    s: Seq<int>,
    o: Seq<int>,
    pos: Seq<int>,
    c: int,
    ip: int,
    b: int,
    iq: int,
    k: int,
)
    requires
        merging(m, s, o, pos, c, ip, b, iq, k),
        merge_takes(m).0,
    ensures
        merge_takes(m).1 ==> merging(
            merge_step(m, true),
            s,
            o.push(s[ip]),
            pos.push(ip),
            c,
            ip + 1,
            b,
            iq,
            k,
        ),
        !merge_takes(m).1 ==> merging(
            merge_step(m, false),
            s,
            o.push(s[iq]),
            pos.push(iq),
            c,
            ip,
            b,
            iq + 1,
            k,
        ),
        z_kept(m.nodes, merge_step(m, merge_takes(m).1).nodes),
{
    let take_p = merge_takes(m).1;
    let x = if take_p {
        ip
    } else {
        iq
    };
    let e = s[x];
    let m2 = merge_step(m, take_p);
    let o2 = o.push(e);
    let ip2 = if take_p {
        ip + 1
    } else {
        ip
    };
    let iq2 = if take_p {
        iq
    } else {
        iq + 1
    };
    let n = m.nodes.len() as int;
    let tail = m.tail;
    assert(0 <= x < s.len());
    assert(x >= ip && !(b <= x < iq));
    assert(e == if take_p {
        m.p
    } else {
        m.q
    });
    lemma_taken(o, pos, s, ip, b, iq, n);
    assert(!(x < ip || b <= x < iq));
    if o.len() > 0 {
        assert(tail == o[o.len() - 1]);
        assert(o[o.len() - 1] != s[x]);
    }
    assert(stepped(m.nodes, m2.nodes, e, tail));
    lemma_step_keeps_z(m.nodes, m2.nodes, e, tail);
    // The links of what was not taken.
    assert forall|i: int| ip2 <= i < b && 0 <= i < s.len() implies #[trigger] s[i] != tail by {
        if o.len() > 0 {
            assert(o[o.len() - 1] != s[i]);
        }
    }
    assert forall|i: int| iq2 <= i < s.len() && 0 <= i < s.len() implies #[trigger] s[i]
        != tail by {
        if o.len() > 0 {
            assert(o[o.len() - 1] != s[i]);
        }
    }
    lemma_intact_sub(m.nodes, s, ip, b, ip2, b);
    lemma_intact_sub(m.nodes, s, iq, s.len() as int, iq2, s.len() as int);
    lemma_intact_kept(m.nodes, m2.nodes, s, ip2, b, e, tail);
    lemma_intact_kept(m.nodes, m2.nodes, s, iq2, s.len() as int, e, tail);
    // What follows the node taken.
    if take_p {
        lemma_intact_at(m.nodes, s, ip, b, x);
    } else {
        lemma_intact_at(m.nodes, s, iq, s.len() as int, x);
    }
    assert(m.nodes[e].next_z == hd(s, x + 1));
    // The z values.
    lemma_rising_kept(m.nodes, m2.nodes, s, c, b);
    lemma_rising_kept(m.nodes, m2.nodes, s, b, b + k);
    lemma_rising_pushed(m.nodes, o, c, e);
    assert forall|i: int| 0 <= i < o2.len() implies 1 <= #[trigger] o2[i] < n by {
        if i < o.len() {
            assert(o2[i] == o[i]);
        }
    }
    lemma_rising_kept(m.nodes, m2.nodes, o2, c, o.len() as int + 1);
    if take_p {
        if ip + 1 < b {
            lemma_rising_at(m.nodes, s, c, b, ip);
        }
    } else {
        if iq + 1 < b + k && iq + 1 < s.len() {
            lemma_rising_at(m.nodes, s, b, b + k, iq);
        }
    }
    // The list merged.
    lemma_taken_pushed(o, pos, s, ip, b, iq, x, ip2, iq2);
    lemma_linked_pushed(m.nodes, m2.nodes, o, e, tail);
    assert(o2[o2.len() - 1] == e);
    assert(hd(o2, 0) == if o.len() > 0 {
        o[0]
    } else {
        e
    });
}

/// A link that is intact.
pub proof fn lemma_intact_at(nodes: Seq<Node>, s: Seq<int>, from: int, to: int, i: int)
    requires
        intact(nodes, s, from, to),
        from <= i < to,
        0 <= i < s.len(),
    ensures
        nodes[s[i]].next_z == hd(s, i + 1),
{
    reveal(intact);
}

/// Links that are intact are so in every part.
pub proof fn lemma_intact_sub(nodes: Seq<Node>, s: Seq<int>, from: int, to: int, a: int, b: int)
    requires
        intact(nodes, s, from, to),
        from <= a,
        b <= to,
    ensures
        intact(nodes, s, a, b),
{
    reveal(intact);
}

/// Two nodes of what rises.
pub proof fn lemma_rising_at(nodes: Seq<Node>, s: Seq<int>, from: int, to: int, i: int)
    requires
        rising(nodes, s, from, to),
        from <= i,
        i + 1 < to,
        0 <= i,
        i + 1 < s.len(),
    ensures
        nodes[s[i]].z <= nodes[s[i + 1]].z,
{
    reveal(rising);
}

/// Keeping the z values twice keeps them.
pub proof fn lemma_z_kept_twice(a: Seq<Node>, b: Seq<Node>, c: Seq<Node>)
    requires
        z_kept(a, b),
        z_kept(b, c),
    ensures
        z_kept(a, c),
{
    assert forall|x: int| 0 <= x < a.len() implies (#[trigger] c[x]).z == a[x].z by {
        assert(b[x].z == a[x].z);
    }
}

/// A merge that is under way ends in order: both runs are taken.
pub proof fn lemma_merged(
    m: Merge,
    s: Seq<int>,
    o: Seq<int>,
    pos: Seq<int>,
    c: int,
    ip: int,
    b: int,
    iq: int,
    k: int,
) -> (r: (Seq<int>, Seq<int>))
    requires
        merging(m, s, o, pos, c, ip, b, iq, k),
    ensures
        merging(
            merged(m),
            s,
            r.0,
            r.1,
            c,
            b,
            b,
            if b + k < s.len() {
                b + k
            } else {
                s.len() as int
            },
            k,
        ),
        z_kept(m.nodes, merged(m).nodes),
        r.0.len() >= o.len(),
        forall|i: int| 0 <= i < o.len() ==> #[trigger] r.0[i] == o[i],
    decreases m.p_size + m.q_size,
{
    let takes = merge_takes(m);
    if takes.0 {
        lemma_merge_step(m, s, o, pos, c, ip, b, iq, k);
        let m2 = merge_step(m, takes.1);
        if takes.1 {
            let r = lemma_merged(m2, s, o.push(s[ip]), pos.push(ip), c, ip + 1, b, iq, k);
            assert forall|i: int| 0 <= i < o.len() implies #[trigger] r.0[i] == o[i] by {
                assert(o.push(s[ip])[i] == o[i]);
            }
            lemma_z_kept_twice(m.nodes, m2.nodes, merged(m).nodes);
            r
        } else {
            let r = lemma_merged(m2, s, o.push(s[iq]), pos.push(iq), c, ip, b, iq + 1, k);
            assert forall|i: int| 0 <= i < o.len() implies #[trigger] r.0[i] == o[i] by {
                assert(o.push(s[iq])[i] == o[i]);
            }
            lemma_z_kept_twice(m.nodes, m2.nodes, merged(m).nodes);
            r
        }
    } else {
        if m.p_size > 0 {
            assert(m.p == s[ip]);
        }
        if m.q_size > 0 {
            assert(m.q == 0);
            if iq < s.len() {
                assert(m.q == s[iq]);
            }
        }
        (o, pos)
    }
}

/// The run that begins at position `c` of the list `s` ends `k` nodes on,
/// or with the list.
pub proof fn lemma_run_end(nodes: Seq<Node>, s: Seq<int>, c: int, cnt: int, k: int)
    requires
        members(s, nodes.len() as int),
        intact(nodes, s, c, s.len() as int),
        0 <= c,
        1 <= cnt <= k,
        c + cnt <= s.len(),
    ensures
        run_end(nodes, hd(s, c + cnt), cnt as nat, k as nat) == (
            hd(
                s,
                if c + k < s.len() {
                    c + k
                } else {
                    s.len() as int
                },
            ),
            (if c + k < s.len() {
                k
            } else {
                s.len() - c
            }) as nat,
        ),
    decreases k - cnt,
{
    if cnt < k && hd(s, c + cnt) != 0 {
        assert(c + cnt < s.len());
        lemma_intact_at(nodes, s, c, s.len() as int, c + cnt);
        lemma_run_end(nodes, s, c, cnt + 1, k);
    } else if cnt < k {
        if c + cnt < s.len() {
            assert(s[c + cnt] >= 1);
        }
    }
}

/// Within a run the z values rise.
pub proof fn lemma_run_rises(nodes: Seq<Node>, s: Seq<int>, k: int, j: int)
    requires
        runs_rising(nodes, s, k),
        k >= 1,
        j >= 0,
    ensures
        rising(nodes, s, k * j, k * j + k),
{
    reveal(runs_rising);
    reveal(rising);
    assert forall|i: int| k * j <= i && i + 1 < k * j + k && 0 <= i && i + 1 < s.len() implies (
    #[trigger] nodes[s[i]]).z <= nodes[s[i + 1]].z by {
        let r = i + 1 - k * j;
        assert(0 < r < k);
        vstd::arithmetic::div_mod::lemma_mod_multiples_vanish(j, r, k);
        vstd::arithmetic::div_mod::lemma_small_mod(r as nat, k as nat);
        assert(k * j + r == i + 1);
        assert((i + 1) % k == r);
    }
}

/// Nothing rises less than what holds no two nodes.
pub proof fn lemma_rising_none(nodes: Seq<Node>, s: Seq<int>, from: int, to: int)
    requires
        to <= from + 1 || from + 1 >= s.len(),
    ensures
        rising(nodes, s, from, to),
{
    reveal(rising);
}

/// Runs of `2 * k` nodes that rise among the first `c` nodes of `o`, a
/// run that begins at `c` and rises to the end of what `o2` holds, which
/// begins as `o` does: the runs of `2 * k` nodes of `o2` rise.
pub proof fn lemma_runs_joined(
    before: Seq<Node>,
    now: Seq<Node>,
    o: Seq<int>,
    o2: Seq<int>,
    c: int,
    k: int,
    n: int,
)
    requires
        z_kept(before, now),
        runs_rising(before, o, 2 * k),
        rising(now, o2, c, o2.len() as int),
        o.len() == c,
        o2.len() >= c,
        forall|i: int| 0 <= i < c ==> #[trigger] o2[i] == o[i],
        forall|i: int| 0 <= i < o2.len() ==> 1 <= #[trigger] o2[i] < before.len(),
        k >= 1,
        n >= 0,
        c == 2 * k * n,
    ensures
        runs_rising(now, o2, 2 * k),
{
    reveal(runs_rising);
    reveal(rising);
    assert forall|i: int| 0 <= i && i + 1 < o2.len() && (i + 1) % (2 * k) != 0 implies (
    #[trigger] now[o2[i]]).z <= now[o2[i + 1]].z by {
        if i + 1 < c {
            assert(o2[i] == o[i] && o2[i + 1] == o[i + 1]);
            assert(before[o[i]].z <= before[o[i + 1]].z);
            assert(1 <= o2[i + 1] < before.len());
        } else if i + 1 == c {
            vstd::arithmetic::div_mod::lemma_mod_multiples_basic(n, 2 * k);
            assert(c == n * (2 * k)) by (nonlinear_arith)
                requires
                    c == 2 * k * n,
            ;
        } else {
            assert(c <= i);
        }
    }
}

/// Whether the pass `st` is under way on the list `s` with runs of `k`
/// nodes: the first `c` nodes of `s` are merged into `o`, which is linked
/// and whose runs of `2 * k` nodes rise; the last merge began at `start`.
pub open spec fn passing(
    st: Pass,
    s: Seq<int>,
    o: Seq<int>,
    pos: Seq<int>,
    c: int,
    k: int,
    start: int,
    limit: int,
) -> bool {
    &&& members(s, st.nodes.len() as int)
    &&& limit == st.nodes.len()
    &&& k >= 1
    &&& 0 <= c <= s.len()
    &&& o.len() == c
    &&& st.p == hd(s, c)
    &&& (c < s.len() ==> c == 2 * k * st.num_merges)
    &&& (st.num_merges == 0 ==> c == 0)
    &&& st.num_merges <= c
    &&& (st.num_merges >= 2 ==> 2 * k < s.len())
    &&& intact(st.nodes, s, c, s.len() as int)
    &&& runs_rising(st.nodes, s, k)
    &&& taken_from(o, pos, s, c, c, c)
    &&& linked(st.nodes, o)
    &&& st.tail == hd(o, c - 1)
    &&& st.list == hd(o, 0)
    &&& runs_rising(st.nodes, o, 2 * k)
    &&& 0 <= start <= c
    &&& rising(st.nodes, o, start, c)
    &&& (st.num_merges <= 1 ==> start == 0)
}

/// The pass `st` after its next merge.
pub open spec fn pass_step(st: Pass, in_size: nat) -> Pass {
    let run = run_end(st.nodes, st.nodes[st.p].next_z as int, 1, in_size);
    let m = merged(
        Merge {
            nodes: st.nodes,
            p: st.p,
            q: run.0,
            p_size: run.1,
            q_size: in_size,
            list: st.list,
            tail: st.tail,
        },
    );
    Pass { nodes: m.nodes, p: m.q, list: m.list, tail: m.tail, num_merges: st.num_merges + 1 }
}

/// What rises does so in every part.
pub proof fn lemma_rising_sub(nodes: Seq<Node>, s: Seq<int>, from: int, to: int, a: int, b: int)
    requires
        rising(nodes, s, from, to),
        from <= a,
        b <= to,
    ensures
        rising(nodes, s, a, b),
{
    reveal(rising);
}

/// The merge that a pass makes next, as it begins.
pub open spec fn next_merge(st: Pass, in_size: nat) -> Merge {
    let run = run_end(st.nodes, st.nodes[st.p].next_z as int, 1, in_size);
    Merge {
        nodes: st.nodes,
        p: st.p,
        q: run.0,
        p_size: run.1,
        q_size: in_size,
        list: st.list,
        tail: st.tail,
    }
}

/// Where the run that begins at `c` ends.
pub open spec fn run_stop(s: Seq<int>, c: int, k: int) -> int {
    if c + k < s.len() {
        c + k
    } else {
        s.len() as int
    }
}

/// The next merge of a pass that is in order begins in order.
pub proof fn lemma_merge_begins(
    st: Pass,
    s: Seq<int>,
    o: Seq<int>,
    pos: Seq<int>,
    c: int,
    k: int,
    start: int,
    limit: int,
)
    requires
        passing(st, s, o, pos, c, k, start, limit),
        st.p != 0,
    ensures
        c < s.len(),
        merging(next_merge(st, k as nat), s, o, pos, c, c, run_stop(s, c, k), run_stop(s, c, k), k),
{
    let len = s.len() as int;
    let n = st.num_merges as int;
    assert(c < len);
    assert(st.p == s[c]);
    let b = run_stop(s, c, k);
    lemma_intact_at(st.nodes, s, c, len, c);
    lemma_run_end(st.nodes, s, c, 1, k);
    assert(c == k * (2 * n) && c + k == k * (2 * n) + k) by (nonlinear_arith)
        requires
            c == 2 * k * n,
    ;
    lemma_run_rises(st.nodes, s, k, 2 * n);
    lemma_rising_sub(st.nodes, s, c, c + k, c, b);
    if b < len {
        assert(b == k * (2 * n + 1) && b + k == k * (2 * n + 1) + k) by (nonlinear_arith)
            requires
                b == c + k,
                c == 2 * k * n,
        ;
        lemma_run_rises(st.nodes, s, k, 2 * n + 1);
    } else {
        lemma_rising_none(st.nodes, s, b, b + k);
    }
    lemma_taken_below(o, pos, s, c, c, c, c, b);
    lemma_intact_sub(st.nodes, s, c, len, c, b);
    lemma_intact_sub(st.nodes, s, c, len, b, len);
    lemma_rising_none(st.nodes, o, c, o.len() as int);
}

/// A pass is in order after a merge that ended in order.
pub proof fn lemma_merge_ends(
    st: Pass,
    mm: Merge,
    st2: Pass,
    s: Seq<int>,
    o: Seq<int>,
    pos: Seq<int>,
    o1: Seq<int>,
    pos1: Seq<int>,
    c: int,
    k: int,
    start: int,
    limit: int,
)
    requires
        passing(st, s, o, pos, c, k, start, limit),
        c < s.len(),
        merging(
            mm,
            s,
            o1,
            pos1,
            c,
            run_stop(s, c, k),
            run_stop(s, c, k),
            run_stop(s, run_stop(s, c, k), k),
            k,
        ),
        st2 == (Pass {
            nodes: mm.nodes,
            p: mm.q,
            list: mm.list,
            tail: mm.tail,
            num_merges: st.num_merges + 1,
        }),
        z_kept(st.nodes, mm.nodes),
        forall|i: int| 0 <= i < o.len() ==> #[trigger] o1[i] == o[i],
    ensures
        passing(st2, s, o1, pos1, run_stop(s, run_stop(s, c, k), k), k, c, limit),
{
    let len = s.len() as int;
    let n = st.num_merges as int;
    let b = run_stop(s, c, k);
    let c2 = run_stop(s, b, k);
    if c2 < len {
        assert(c2 == 2 * k * (n + 1)) by (nonlinear_arith)
            requires
                c2 == c + 2 * k,
                c == 2 * k * n,
        ;
    }
    if n >= 1 {
        assert(2 * k <= c) by (nonlinear_arith)
            requires
                c == 2 * k * n,
                n >= 1,
                k >= 1,
        ;
    }
    lemma_runs_kept(st.nodes, st2.nodes, s, k);
    lemma_taken_below(o1, pos1, s, b, b, c2, c2, c2);
    lemma_taken(o1, pos1, s, c2, c2, c2, st.nodes.len() as int);
    lemma_runs_joined(st.nodes, st2.nodes, o, o1, c, k, n);
}

/// One merge keeps a pass in order.
pub proof fn lemma_pass_step(
    st: Pass,
    s: Seq<int>,
    o: Seq<int>,
    pos: Seq<int>,
    c: int,
    k: int,
    start: int,
    limit: int,
) -> (r: (Seq<int>, Seq<int>, int))
    requires
        passing(st, s, o, pos, c, k, start, limit),
        st.p != 0,
    ensures
        passing(pass_step(st, k as nat), s, r.0, r.1, r.2, k, c, limit),
        c < r.2,
        z_kept(st.nodes, pass_step(st, k as nat).nodes),
{
    lemma_merge_begins(st, s, o, pos, c, k, start, limit);
    let m0 = next_merge(st, k as nat);
    let b = run_stop(s, c, k);
    let c2 = run_stop(s, b, k);
    let r = lemma_merged(m0, s, o, pos, c, c, b, b, k);
    let mm = merged(m0);
    let st2 = pass_step(st, k as nat);
    assert(st2.nodes == mm.nodes && st2.p == mm.q && st2.list == mm.list && st2.tail == mm.tail);
    lemma_merge_ends(st, mm, st2, s, o, pos, r.0, r.1, c, k, start, limit);
    (r.0, r.1, c2)
}

/// A pass that is under way ends in order, with the whole list merged.
pub proof fn lemma_passed(
    st: Pass,
    s: Seq<int>,
    o: Seq<int>,
    pos: Seq<int>,
    c: int,
    k: int,
    start: int,
    limit: int,
) -> (r: (Seq<int>, Seq<int>, int))
    requires
        passing(st, s, o, pos, c, k, start, limit),
    ensures
        passing(passed(st, k as nat, limit as nat), s, r.0, r.1, s.len() as int, k, r.2, limit),
        z_kept(st.nodes, passed(st, k as nat, limit as nat).nodes),
    decreases limit - st.num_merges,
{
    if st.p != 0 && st.num_merges < limit {
        let r = lemma_pass_step(st, s, o, pos, c, k, start, limit);
        let st2 = pass_step(st, k as nat);
        let fin = lemma_passed(st2, s, r.0, r.1, r.2, k, c, limit);
        lemma_z_kept_twice(st.nodes, st2.nodes, passed(st, k as nat, limit as nat).nodes);
        fin
    } else {
        if st.p != 0 {
            assert(c < s.len());
        } else if c < s.len() {
            assert(st.p == s[c]);
        }
        (o, pos, start)
    }
}

/// Whether `t` holds the nodes that `s` holds: as many, none twice, and
/// each of them one of `s`.
pub open spec fn same_nodes(t: Seq<int>, s: Seq<int>) -> bool {
    &&& t.len() == s.len()
    &&& forall|i: int, j: int| 0 <= i < j < t.len() ==> t[i] != t[j]
    &&& forall|i: int| 0 <= i < t.len() ==> s.contains(#[trigger] t[i])
}

/// Whether `t` is a z-order list of the arena in the order of the z values:
/// its nodes are linked one to the next and back, the first back to none
/// and the last on to none, and no node has a greater z value than the node
/// that follows it.
pub open spec fn z_sorted(nodes: Seq<Node>, t: Seq<int>) -> bool {
    &&& z_list(nodes, t)
    &&& linked(nodes, t)
    &&& rising(nodes, t, 0, t.len() as int)
}

/// A list that a pass has merged and linked is a list again once its last
/// node is linked on to none.
pub proof fn lemma_closed(nodes: Seq<Node>, closed: Seq<Node>, o: Seq<int>)
    requires
        linked(nodes, o),
        1 <= o.len(),
        nodes.len() <= usize::MAX,
        forall|i: int| 0 <= i < o.len() ==> 1 <= #[trigger] o[i] < nodes.len(),
        forall|i: int, j: int| 0 <= i < j < o.len() ==> o[i] != o[j],
        closed == nodes.update(
            o[o.len() - 1],
            Node { next_z: 0, ..nodes[o[o.len() - 1]] },
        ),
    ensures
        intact(closed, o, 0, o.len() as int),
        linked(closed, o),
        z_kept(nodes, closed),
{
    reveal(linked);
    reveal(intact);
    let last = o[o.len() - 1];
    assert forall|i: int| 0 <= i < o.len() implies (#[trigger] closed[o[i]]).next_z == hd(
        o,
        i + 1,
    ) && closed[o[i]].prev_z == hd(o, i - 1) by {
        assert(nodes[o[i]].prev_z == hd(o, i - 1));
        if i + 1 < o.len() {
            assert(o[i] != o[o.len() - 1]);
            assert(nodes[o[i]].next_z == o[i + 1]);
        }
    }
    assert forall|x: int| 0 <= x < nodes.len() implies (#[trigger] closed[x]).z == nodes[x].z by {}
}

/// The passes from a list whose runs of `k` nodes rise end with the list
/// in the order of the z values, and with the nodes that it began with.
pub proof fn lemma_sorted_from(
    nodes: Seq<Node>,
    list: int,
    k: int,
    limit: int,
    s: Seq<int>,
    s0: Seq<int>,
) -> (t: Seq<int>)
    requires
        z_list(nodes, s),
        s[0] == list,
        same_nodes(s, s0),
        runs_rising(nodes, s, k),
        k >= 1,
        limit == nodes.len(),
    ensures
        z_sorted(sorted_from(nodes, list, k as nat, limit as nat), t),
        same_nodes(t, s0),
        z_kept(nodes, sorted_from(nodes, list, k as nat, limit as nat)),
    decreases
            (if k >= limit {
                0
            } else {
                limit - k
            }),
{
    let len = s.len() as int;
    let st0 = Pass { nodes, p: list, list: 0, tail: 0, num_merges: 0 };
    let none = Seq::<int>::empty();
    assert(taken_from(none, none, s, 0, 0, 0)) by {
        reveal(taken_from);
    }
    assert(linked(nodes, none)) by {
        reveal(linked);
    }
    assert(runs_rising(nodes, none, 2 * k)) by {
        reveal(runs_rising);
    }
    lemma_rising_none(nodes, none, 0, 0);
    assert(members(s, st0.nodes.len() as int));
    assert(st0.p == hd(s, 0));
    assert(0 == 2 * k * st0.num_merges) by (nonlinear_arith)
        requires
            st0.num_merges == 0,
    ;
    assert(intact(st0.nodes, s, 0, s.len() as int));
    assert(runs_rising(st0.nodes, s, k));
    assert(st0.tail == hd(none, 0 - 1));
    assert(st0.list == hd(none, 0));
    assert(rising(st0.nodes, none, 0, 0));
    assert(passing(st0, s, none, none, 0, k, 0, limit));
    let r = lemma_passed(st0, s, none, none, 0, k, 0, limit);
    let fin = passed(st0, k as nat, limit as nat);
    let o = r.0;
    let start = r.2;
    lemma_taken(o, r.1, s, len, len, len, nodes.len() as int);
    let tail = o[len - 1];
    assert(fin.tail == tail && tail != 0);
    let closed = fin.nodes.update(fin.tail, Node { next_z: 0, ..fin.nodes[fin.tail] });
    lemma_closed(fin.nodes, closed, o);
    lemma_z_kept_twice(nodes, fin.nodes, closed);
    assert(same_nodes(o, s0)) by {
        assert forall|i: int| 0 <= i < o.len() implies s0.contains(#[trigger] o[i]) by {
            let j = choose|j: int| 0 <= j < s.len() && s[j] == o[i];
            assert(s0.contains(s[j]));
        }
    }
    assert(z_list(closed, o));
    if last_pass(fin.num_merges, k as nat, limit as nat) {
        assert(start == 0);
        lemma_rising_kept(fin.nodes, closed, o, 0, len);
        o
    } else {
        assert(2 * k < len);
        assert(doubled(k as nat) == 2 * k);
        lemma_runs_kept(fin.nodes, closed, o, 2 * k);
        let t = lemma_sorted_from(closed, fin.list, 2 * k, limit, o, s0);
        lemma_z_kept_twice(nodes, closed, sorted_from(closed, fin.list, (2 * k) as nat, limit as nat));
        t
    }
}

/// Sorting the z-order list keeps its nodes and puts them in the order of
/// their z values: where the links from `list` form a list, they form a
/// list of the same nodes afterwards, linked forth and back, in which no
/// node has a greater z value than the node that follows it. No z value
/// changes.
pub proof fn lemma_sort_linked_sorts(nodes: Seq<Node>, list: int, s: Seq<int>) -> (t: Seq<int>)
    requires
        z_list(nodes, s),
        s[0] == list,
    ensures
        z_sorted(sort_linked_of(nodes, list), t),
        same_nodes(t, s),
        z_kept(nodes, sort_linked_of(nodes, list)),
{
    assert(same_nodes(s, s)) by {
        assert forall|i: int| 0 <= i < s.len() implies s.contains(#[trigger] s[i]) by {}
    }
    assert(runs_rising(nodes, s, 1)) by {
        reveal(runs_rising);
        assert forall|i: int| 0 <= i && i + 1 < s.len() && (i + 1) % 1 != 0 implies (
        #[trigger] nodes[s[i]]).z <= nodes[s[i + 1]].z by {
            assert((i + 1) % 1 == 0);
        }
    }
    lemma_sorted_from(nodes, list, 1, nodes.len() as int, s, s)
}

/// Sorts the z-order list that starts at `list` by ascending z value: a
/// merge sort on the links, with runs that double in length from pass to
/// pass. Nodes with the same z value keep their order. Only `prev_z` and
/// `next_z` change.
///
/// Where the links from `list` form a list, they form a list of the same
/// nodes afterwards, in which no node has a greater z value than the node
/// that follows it.
pub fn sort_linked(nodes: &mut Vec<Node>, vertices: usize, list: usize)
    requires
        arena_ok(old(nodes)@, vertices as nat),
        1 <= list < old(nodes)@.len(),
    ensures
        final(nodes)@ == sort_linked_of(old(nodes)@, list as int),
        forall|s: Seq<int>| #[trigger]
            z_list(old(nodes)@, s) && s[0] == list ==> exists|t: Seq<int>| #[trigger]
                z_sorted(final(nodes)@, t) && same_nodes(t, s),
        arena_ok(final(nodes)@, vertices as nat),
        final(nodes)@.len() == old(nodes)@.len(),
        forall|k: int|
            0 <= k < final(nodes)@.len() ==> same_but_z_links(
                #[trigger] final(nodes)@[k],
                old(nodes)@[k],
            ),
{
    let limit = nodes.len();
    let mut in_size: usize = 1;
    let mut head: usize = list;
    let ghost target = sort_linked_of(nodes@, list as int);
    // Runs double until one run holds the list.
    loop
        invariant_except_break
            target == sorted_from(nodes@, head as int, in_size as nat, limit as nat),
        invariant
            arena_ok(nodes@, vertices as nat),
            nodes@.len() == old(nodes)@.len(),
            limit == nodes@.len(),
            head < nodes@.len(),
            in_size >= 1,
            forall|k: int|
                0 <= k < nodes@.len() ==> same_but_z_links(#[trigger] nodes@[k], old(nodes)@[k]),
        ensures
            target == nodes@,
        decreases
                (if in_size >= limit {
                    0nat
                } else {
                    (limit - in_size) as nat
                }),
    {
        let mut p: usize = head;
        let mut new_head: usize = 0;
        let mut tail: usize = 0;
        let mut num_merges: usize = 0;
        let ghost pass_target = passed(
            Pass { nodes: nodes@, p: head as int, list: 0, tail: 0, num_merges: 0 },
            in_size as nat,
            limit as nat,
        );

        while p != 0 && num_merges < limit
            invariant
                arena_ok(nodes@, vertices as nat),
                nodes@.len() == old(nodes)@.len(),
                limit == nodes@.len(),
                p < nodes@.len(),
                new_head < nodes@.len(),
                tail < nodes@.len(),
                in_size >= 1,
                num_merges <= limit,
                pass_target == passed(
                    Pass {
                        nodes: nodes@,
                        p: p as int,
                        list: new_head as int,
                        tail: tail as int,
                        num_merges: num_merges as nat,
                    },
                    in_size as nat,
                    limit as nat,
                ),
                forall|k: int|
                    0 <= k < nodes@.len() ==> same_but_z_links(
                        #[trigger] nodes@[k],
                        old(nodes)@[k],
                    ),
            decreases limit - num_merges,
        {
            // Find the run that follows: at most `in_size` nodes on.
            let mut q: usize = nodes[p].next_z;
            let mut p_size: usize = 1;
            let ghost run = run_end(nodes@, q as int, 1, in_size as nat);
            while p_size < in_size && q != 0
                invariant
                    arena_ok(nodes@, vertices as nat),
                    q < nodes@.len(),
                    1 <= p_size <= in_size,
                    run == run_end(nodes@, q as int, p_size as nat, in_size as nat),
                decreases in_size - p_size,
            {
                p_size += 1;
                q = nodes[q].next_z;
            }
            let mut q_size: usize = in_size;
            let ghost merge_target = merged(
                Merge {
                    nodes: nodes@,
                    p: p as int,
                    q: q as int,
                    p_size: p_size as nat,
                    q_size: q_size as nat,
                    list: new_head as int,
                    tail: tail as int,
                },
            );

            // Merge the two runs behind `tail`.
            loop
                invariant
                    arena_ok(nodes@, vertices as nat),
                    nodes@.len() == old(nodes)@.len(),
                    p < nodes@.len(),
                    q < nodes@.len(),
                    new_head < nodes@.len(),
                    tail < nodes@.len(),
                    merge_target == merged(
                        Merge {
                            nodes: nodes@,
                            p: p as int,
                            q: q as int,
                            p_size: p_size as nat,
                            q_size: q_size as nat,
                            list: new_head as int,
                            tail: tail as int,
                        },
                    ),
                    forall|k: int|
                        0 <= k < nodes@.len() ==> same_but_z_links(
                            #[trigger] nodes@[k],
                            old(nodes)@[k],
                        ),
                ensures
                    merge_target == (Merge {
                        nodes: nodes@,
                        p: p as int,
                        q: q as int,
                        p_size: p_size as nat,
                        q_size: q_size as nat,
                        list: new_head as int,
                        tail: tail as int,
                    }),
                decreases p_size + q_size,
            {
                let take_p: bool = if p_size > 0 {
                    if p == 0 {
                        break ;
                    }
                    if q_size > 0 && q != 0 {
                        nodes[p].z <= nodes[q].z
                    } else {
                        true
                    }
                } else if q_size > 0 {
                    if q == 0 {
                        break ;
                    }
                    false
                } else {
                    break ;
                };
                let e: usize = if take_p {
                    p
                } else {
                    q
                };
                let mut en = nodes[e];
                let after = en.next_z;
                en.prev_z = tail;
                nodes.set(e, en);
                if take_p {
                    p_size -= 1;
                    p = after;
                } else {
                    q_size -= 1;
                    q = after;
                }
                if tail != 0 {
                    let mut t = nodes[tail];
                    t.next_z = e;
                    nodes.set(tail, t);
                } else {
                    new_head = e;
                }
                tail = e;
            }
            p = q;
            num_merges += 1;
        }

        if tail != 0 {
            let mut t = nodes[tail];
            t.next_z = 0;
            nodes.set(tail, t);
        }
        if num_merges <= 1 || in_size >= limit {
            break ;
        }
        head = new_head;
        in_size = if in_size <= usize::MAX - in_size {
            in_size + in_size
        } else {
            usize::MAX
        };
    }
    proof {
        assert forall|s: Seq<int>| #[trigger] z_list(old(nodes)@, s) && s[0] == list implies exists|
            t: Seq<int>,
        | #[trigger] z_sorted(nodes@, t) && same_nodes(t, s) by {
            let t = lemma_sort_linked_sorts(old(nodes)@, list as int, s);
            assert(z_sorted(nodes@, t) && same_nodes(t, s));
        }
    }
}

/// Whether two nodes differ in nothing but their z-order links.
pub open spec fn same_but_z_links(now: Node, before: Node) -> bool {
    now == (Node { prev_z: now.prev_z, next_z: now.next_z, ..before })
}

/// Whether two nodes differ in nothing but their z value and z-order links.
pub open spec fn same_but_z(now: Node, before: Node) -> bool {
    now == (Node { z: now.z, prev_z: now.prev_z, next_z: now.next_z, ..before })
}

/// The node `n` with its z value, where it had none, and with the z-order
/// links of its place in the ring.
pub open spec fn z_linked_node(n: Node, min_x: int, min_y: int, size: int) -> Node {
    Node {
        z: if n.z == 0 {
            z_of(n.x as int, n.y as int, min_x, min_y, size) as i32
        } else {
            n.z
        },
        prev_z: n.prev,
        next_z: n.next,
        ..n
    }
}

/// The arena, and the node reached, after the nodes of the ring of `start`
/// from `p` on got their z values and their z-order links, in at most
/// `limit - steps` steps.
pub open spec fn z_linked(
    nodes: Seq<Node>,
    p: int,
    start: int,
    steps: nat,
    limit: nat,
    min_x: int,
    min_y: int,
    size: int,
) -> (Seq<Node>, int)
    decreases limit - steps,
{
    if steps >= limit {
        (nodes, p)
    } else {
        let linked = nodes.update(p, z_linked_node(nodes[p], min_x, min_y, size));
        let next = nodes[p].next as int;
        if next == start {
            (linked, next)
        } else {
            z_linked(linked, next, start, steps + 1, limit, min_x, min_y, size)
        }
    }
}

/// The arena after the ring of `start` was indexed by z-order: every node
/// has its z value and is linked in ring order, the circle of z-order links
/// is opened in front of the node reached, and the list is sorted.
pub open spec fn index_curve_of(
    nodes: Seq<Node>,
    start: int,
    min_x: int,
    min_y: int,
    size: int,
) -> Seq<Node> {
    let linked = z_linked(nodes, start, start, 0, nodes.len(), min_x, min_y, size);
    let p = linked.1;
    let pn = linked.0[p];
    let n1 = linked.0.update(p, Node { prev_z: 0, ..pn });
    let n2 = if pn.prev_z != 0 {
        n1.update(pn.prev_z as int, Node { next_z: 0, ..n1[pn.prev_z as int] })
    } else {
        n1
    };
    sort_linked_of(n2, p)
}

/// Gives every node of the ring of `start` its z-order value, where it has
/// none yet, links the nodes in ring order and sorts that list by z value.
pub fn index_curve(
    nodes: &mut Vec<Node>,
    vertices: usize,
    start: usize,
    min_x: i32,
    min_y: i32,
    size: i64,
)
    requires
        arena_ok(old(nodes)@, vertices as nat),
        1 <= start < old(nodes)@.len(),
        1 <= size <= 0xffff_ffff,
    ensures
        final(nodes)@ == index_curve_of(
            old(nodes)@,
            start as int,
            min_x as int,
            min_y as int,
            size as int,
        ),
        arena_ok(final(nodes)@, vertices as nat),
        final(nodes)@.len() == old(nodes)@.len(),
        forall|k: int|
            0 <= k < final(nodes)@.len() ==> same_but_z(#[trigger] final(nodes)@[k], old(nodes)@[k]),
{
    let limit = nodes.len();
    let mut p: usize = start;
    let mut steps: usize = 0;
    let ghost target = z_linked(
        nodes@,
        start as int,
        start as int,
        0,
        nodes@.len(),
        min_x as int,
        min_y as int,
        size as int,
    );
    while steps < limit
        invariant_except_break
            target == z_linked(
                nodes@,
                p as int,
                start as int,
                steps as nat,
                limit as nat,
                min_x as int,
                min_y as int,
                size as int,
            ),
        invariant
            arena_ok(nodes@, vertices as nat),
            nodes@.len() == old(nodes)@.len(),
            limit == nodes@.len(),
            1 <= p < nodes@.len(),
            1 <= size <= 0xffff_ffff,
            forall|k: int|
                0 <= k < nodes@.len() ==> same_but_z(#[trigger] nodes@[k], old(nodes)@[k]),
        ensures
            target == (nodes@, p as int),
        decreases limit - steps,
    {
        let mut n = nodes[p];
        if n.z == 0 {
            n.z = z_order(n.x, n.y, min_x, min_y, size);
        }
        n.prev_z = n.prev;
        n.next_z = n.next;
        nodes.set(p, n);
        p = n.next;
        if p == start {
            break ;
        }
        steps += 1;
    }
    // Open the circle of z-links in front of the node reached.
    let mut n = nodes[p];
    let before = n.prev_z;
    n.prev_z = 0;
    nodes.set(p, n);
    if before != 0 {
        let mut b = nodes[before];
        b.next_z = 0;
        nodes.set(before, b);
    }
    let ghost mid = nodes@;
    sort_linked(nodes, vertices, p);
    assert forall|k: int| 0 <= k < nodes@.len() implies same_but_z(
        #[trigger] nodes@[k],
        old(nodes)@[k],
    ) by {
        assert(same_but_z_links(nodes@[k], mid[k]));
        assert(same_but_z(mid[k], old(nodes)@[k]));
    }
}

} // verus!
