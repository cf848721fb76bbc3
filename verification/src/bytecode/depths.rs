//! Stretches of code that keep to depths of the value stack, and how the
//! compiler's ways of putting code together keep them.
//!
//! A stretch counts its jump targets from its own first instruction, as
//! the code of a statement does.

use vstd::prelude::*;
use crate::bytecode::balance::keeps;
use crate::bytecode::closed::straight;
use crate::bytecode::lowering::for_code;
use crate::bytecode::lowering::if_code;
use crate::bytecode::lowering::if_else_code;
use crate::bytecode::lowering::patch_break;
use crate::bytecode::lowering::shift;
use crate::bytecode::lowering::shift_instruction;
use crate::bytecode::lowering::while_code;
use crate::bytecode::program::InstructionView;

verus! {

/// Whether the instruction `i` at the index `pc` keeps to the depths
/// `depths`, where a `break` that still waits for its loop stands at the
/// depth `exit`, with which its loop is left.
pub open spec fn fits(i: InstructionView, pc: int, depths: Seq<int>, leave: int, exit: int) -> bool {
    if i == InstructionView::UnresolvedBreak {
        depths[pc] == exit
    } else {
        keeps(i, pc, depths, leave)
    }
}

/// Whether the stretch `code` keeps to the depths `depths`, which give
/// the depth in front of each instruction and behind the last.
pub open spec fn paced(code: Seq<InstructionView>, depths: Seq<int>, leave: int, exit: int) -> bool {
    &&& depths.len() == code.len() + 1
    &&& forall|pc: int|
        0 <= pc < code.len() ==> fits(#[trigger] code[pc], pc, depths, leave, exit)
}

/// An instruction that keeps to depths keeps to them `by` instructions
/// further on, among depths that hold the same values that much further
/// on.
pub proof fn lemma_fits_moved(
    i: InstructionView,
    pc: int,
    d: Seq<int>,
    by: int,
    moved: Seq<int>,
    leave: int,
    exit: int,
)
    requires
        0 <= pc < d.len() - 1,
        by >= 0,
        fits(i, pc, d, leave, exit),
        moved.len() >= d.len() + by,
        forall|x: int| 0 <= x < d.len() ==> moved[x + by] == #[trigger] d[x],
    ensures
        fits(shift_instruction(i, by), pc + by, moved, leave, exit),
{
    assert(moved[pc + by] == d[pc]);
    assert(moved[pc + 1 + by] == d[pc + 1]);
    match i {
        InstructionView::JumpUnconditional(t) => {
            assert(moved[t + by] == d[t]);
        },
        InstructionView::JumpIfFalseAndPopStack(t) => {
            assert(moved[t + by] == d[t]);
        },
        InstructionView::ForIter(t) => {
            assert(moved[t + by] == d[t]);
        },
        _ => {},
    }
}

/// A waiting `break` that stands at the depth with which its loop is left
/// keeps to the depths once it jumps to where the loop is left; any other
/// instruction keeps to them as before.
pub proof fn lemma_fits_patched(
    i: InstructionView,
    pc: int,
    d: Seq<int>,
    target: int,
    leave: int,
    exit: int,
    outer: int,
)
    requires
        fits(i, pc, d, leave, exit),
        0 <= target <= d.len() - 1,
        d[target] == exit,
    ensures
        fits(patch_break(i, target), pc, d, leave, outer),
{
}

/// Every instruction of a stretch keeps to its depths where the stretch
/// is placed `at` instructions into other code.
pub proof fn lemma_paced_placed(
    part: Seq<InstructionView>,
    dp: Seq<int>,
    at: int,
    d: Seq<int>,
    leave: int,
    exit: int,
)
    requires
        paced(part, dp, leave, exit),
        at >= 0,
        d.len() >= at + dp.len(),
        forall|x: int| 0 <= x < dp.len() ==> d[x + at] == #[trigger] dp[x],
    ensures
        forall|k: int|
            0 <= k < part.len() ==> fits(
                shift_instruction(#[trigger] part[k], at),
                k + at,
                d,
                leave,
                exit,
            ),
{
    assert forall|k: int| 0 <= k < part.len() implies fits(
        shift_instruction(#[trigger] part[k], at),
        k + at,
        d,
        leave,
        exit,
    ) by {
        lemma_fits_moved(part[k], k, dp, at, d, leave, exit);
    }
}

/// Straight code is the same wherever it is placed.
pub proof fn lemma_straight_shift(code: Seq<InstructionView>, by: int)
    requires
        straight(code),
    ensures
        shift(code, by) == code,
{
    assert forall|k: int| 0 <= k < code.len() implies shift(code, by)[k] == code[k] by {
        assert(shift_instruction(code[k], 1) == code[k]);
    }
    assert(shift(code, by) =~= code);
}

/// The depths of two stretches, one behind the other.
pub open spec fn joined_depths(da: Seq<int>, db: Seq<int>) -> Seq<int> {
    Seq::new(
        (da.len() + db.len() - 1) as nat,
        |x: int|
            if x < da.len() - 1 {
                da[x]
            } else {
                db[x - (da.len() - 1)]
            },
    )
}

/// Two stretches, the second of which begins at the depth at which the
/// first ends, make one stretch.
pub proof fn lemma_paced_join(
    a: Seq<InstructionView>,
    da: Seq<int>,
    b: Seq<InstructionView>,
    db: Seq<int>,
    leave: int,
    exit: int,
)
    requires
        paced(a, da, leave, exit),
        paced(b, db, leave, exit),
        da.last() == db[0],
    ensures
        paced(a + shift(b, a.len() as int), joined_depths(da, db), leave, exit),
        joined_depths(da, db)[0] == da[0],
        joined_depths(da, db).last() == db.last(),
{
    let n = a.len() as int;
    let d = joined_depths(da, db);
    let code = a + shift(b, n);
    lemma_paced_placed(b, db, n, d, leave, exit);
    assert forall|pc: int| 0 <= pc < code.len() implies fits(
        #[trigger] code[pc],
        pc,
        d,
        leave,
        exit,
    ) by {
        if pc < n {
            assert(code[pc] == a[pc]);
            lemma_fits_moved(a[pc], pc, da, 0, d, leave, exit);
        } else {
            assert(code[pc] == shift_instruction(b[pc - n], n));
        }
    }
}

/// A stretch with one more instruction behind it, which leaves the depth
/// `out`.
pub proof fn lemma_paced_push(
    a: Seq<InstructionView>,
    da: Seq<int>,
    i: InstructionView,
    out: int,
    leave: int,
    exit: int,
)
    requires
        paced(a, da, leave, exit),
        fits(i, a.len() as int, da.push(out), leave, exit),
    ensures
        paced(a.push(i), da.push(out), leave, exit),
{
    let d = da.push(out);
    let code = a.push(i);
    assert forall|pc: int| 0 <= pc < code.len() implies fits(
        #[trigger] code[pc],
        pc,
        d,
        leave,
        exit,
    ) by {
        if pc < a.len() {
            assert(code[pc] == a[pc]);
            lemma_fits_moved(a[pc], pc, da, 0, d, leave, exit);
        }
    }
}

/// A condition that leaves one value, and code that begins and ends at
/// the depth of the condition's beginning, make a stretch that ends at
/// that depth.
pub proof fn lemma_if_paced(
    c: Seq<InstructionView>,
    dc: Seq<int>,
    t: Seq<InstructionView>,
    dt: Seq<int>,
    leave: int,
    exit: int,
)
    requires
        paced(c, dc, leave, exit),
        paced(t, dt, leave, exit),
        dc[0] >= 0,
        dc.last() == dc[0] + 1,
        dt[0] == dc[0],
        dt.last() == dc[0],
    ensures
        paced(if_code(c, t), dc + dt, leave, exit),
        (dc + dt)[0] == dc[0],
        (dc + dt).last() == dc[0],
{
    let n = c.len() as int;
    let d = dc + dt;
    let code = if_code(c, t);
    lemma_paced_placed(t, dt, n + 1, d, leave, exit);
    assert forall|pc: int| 0 <= pc < code.len() implies fits(
        #[trigger] code[pc],
        pc,
        d,
        leave,
        exit,
    ) by {
        if pc < n {
            assert(code[pc] == c[pc]);
            lemma_fits_moved(c[pc], pc, dc, 0, d, leave, exit);
        } else if pc == n {
            assert(code[pc] == InstructionView::JumpIfFalseAndPopStack(n + t.len() + 1));
            assert(d[n + t.len() + 1] == dt[t.len() as int]);
        } else {
            assert(code[pc] == shift_instruction(t[pc - n - 1], n + 1));
        }
    }
}

/// A condition that leaves one value, and two pieces of code that begin
/// and end at the depth of the condition's beginning, make a stretch that
/// ends at that depth.
pub proof fn lemma_if_else_paced(
    c: Seq<InstructionView>,
    dc: Seq<int>,
    t: Seq<InstructionView>,
    dt: Seq<int>,
    e: Seq<InstructionView>,
    de: Seq<int>,
    leave: int,
    exit: int,
)
    requires
        paced(c, dc, leave, exit),
        paced(t, dt, leave, exit),
        paced(e, de, leave, exit),
        dc[0] >= 0,
        dc.last() == dc[0] + 1,
        dt[0] == dc[0],
        dt.last() == dc[0],
        de[0] == dc[0],
        de.last() == dc[0],
    ensures
        paced(if_else_code(c, t, e), dc + dt + de, leave, exit),
        (dc + dt + de)[0] == dc[0],
        (dc + dt + de).last() == dc[0],
{
    let n = c.len() as int;
    let m = t.len() as int;
    let d = dc + dt + de;
    let code = if_else_code(c, t, e);
    lemma_paced_placed(t, dt, n + 1, d, leave, exit);
    lemma_paced_placed(e, de, n + m + 2, d, leave, exit);
    assert forall|pc: int| 0 <= pc < code.len() implies fits(
        #[trigger] code[pc],
        pc,
        d,
        leave,
        exit,
    ) by {
        if pc < n {
            assert(code[pc] == c[pc]);
            lemma_fits_moved(c[pc], pc, dc, 0, d, leave, exit);
        } else if pc == n {
            assert(code[pc] == InstructionView::JumpIfFalseAndPopStack(n + m + 2));
            assert(d[n + m + 2] == de[0]);
            assert(d[n + 1] == dt[0]);
        } else if pc < n + 1 + m {
            assert(code[pc] == shift_instruction(t[pc - n - 1], n + 1));
        } else if pc == n + 1 + m {
            assert(code[pc] == InstructionView::JumpUnconditional(n + m + 2 + e.len()));
            assert(d[n + m + 2 + e.len()] == de[e.len() as int]);
            assert(d[pc] == dt[m]);
        } else {
            assert(code[pc] == shift_instruction(e[pc - n - m - 2], n + m + 2));
        }
    }
}

/// A condition that leaves one value, and a body that begins and ends at
/// the depth of the condition's beginning, at which it also stands where
/// it breaks, make a loop that is a stretch and ends at that depth.
pub proof fn lemma_while_paced(
    c: Seq<InstructionView>,
    dc: Seq<int>,
    b: Seq<InstructionView>,
    db: Seq<int>,
    leave: int,
    exit: int,
)
    requires
        paced(c, dc, leave, exit),
        paced(b, db, leave, dc[0]),
        dc[0] >= 0,
        dc.last() == dc[0] + 1,
        db[0] == dc[0],
        db.last() == dc[0],
    ensures
        paced(while_code(c, b), (dc + db).push(dc[0]), leave, exit),
        (dc + db).push(dc[0])[0] == dc[0],
        (dc + db).push(dc[0]).last() == dc[0],
{
    let n = c.len() as int;
    let m = b.len() as int;
    let h = dc[0];
    let d = (dc + db).push(h);
    let code = while_code(c, b);
    lemma_paced_placed(b, db, n + 1, d, leave, h);
    assert forall|pc: int| 0 <= pc < code.len() implies fits(
        #[trigger] code[pc],
        pc,
        d,
        leave,
        exit,
    ) by {
        if pc < n {
            assert(code[pc] == c[pc]);
            lemma_fits_moved(c[pc], pc, dc, 0, d, leave, exit);
        } else if pc == n {
            assert(code[pc] == InstructionView::JumpIfFalseAndPopStack(n + m + 2));
            assert(d[n + 1] == db[0]);
        } else if pc < n + 1 + m {
            let placed = shift_instruction(b[pc - n - 1], n + 1);
            assert(code[pc] == patch_break(placed, n + m + 2));
            lemma_fits_patched(placed, pc, d, n + m + 2, leave, h, exit);
        } else {
            assert(code[pc] == InstructionView::JumpUnconditional(0));
            assert(d[pc] == db[m]);
            assert(d[0] == dc[0]);
        }
    }
}

/// The depths of a loop over the items of an iterable.
pub open spec fn for_depths(di: Seq<int>, db: Seq<int>) -> Seq<int> {
    let h = di[0];
    (di + seq![h + 1, h + 1, h + 2] + db).push(h)
}

/// Code that leaves one value, and a body that begins and ends one value
/// deeper than that code begins, make a loop that is a stretch and ends
/// at the depth at which it began. Where the body breaks, it stands at
/// that depth.
pub proof fn lemma_for_paced(
    it: Seq<InstructionView>,
    di: Seq<int>,
    item: Seq<char>,
    b: Seq<InstructionView>,
    db: Seq<int>,
    leave: int,
    exit: int,
)
    requires
        paced(it, di, leave, exit),
        paced(b, db, leave, di[0]),
        di[0] >= 0,
        di.last() == di[0] + 1,
        db[0] == di[0] + 1,
        db.last() == di[0] + 1,
    ensures
        paced(for_code(it, item, b), for_depths(di, db), leave, exit),
        for_depths(di, db)[0] == di[0],
        for_depths(di, db).last() == di[0],
{
    let n = it.len() as int;
    let m = b.len() as int;
    let h = di[0];
    let d = for_depths(di, db);
    let code = for_code(it, item, b);
    let head = n + 2;
    lemma_paced_placed(b, db, head + 2, d, leave, h);
    assert(d[head + m + 3] == h);
    assert(d[n + 1] == h + 1);
    assert(d[n + 2] == h + 1);
    assert(d[n + 3] == h + 2);
    assert(d[n + 4] == db[0]);
    assert forall|pc: int| 0 <= pc < code.len() implies fits(
        #[trigger] code[pc],
        pc,
        d,
        leave,
        exit,
    ) by {
        if pc < n {
            assert(code[pc] == it[pc]);
            lemma_fits_moved(it[pc], pc, di, 0, d, leave, exit);
        } else if pc == n {
            assert(code[pc] == InstructionView::LoadAttr("__iter__"@));
            assert(d[n] == di[n]);
        } else if pc == n + 1 {
            assert(code[pc] == InstructionView::CallFunction { number_arguments: 0 });
        } else if pc == n + 2 {
            assert(code[pc] == InstructionView::ForIter(head + m + 3));
        } else if pc == n + 3 {
            assert(code[pc] == InstructionView::UnresolvedStoreName(item));
        } else if pc < head + 2 + m {
            let placed = shift_instruction(b[pc - head - 2], head + 2);
            assert(code[pc] == patch_break(placed, head + m + 3));
            lemma_fits_patched(placed, pc, d, head + m + 3, leave, h, exit);
        } else {
            assert(code[pc] == InstructionView::JumpUnconditional(head));
            assert(d[pc] == db[m]);
        }
    }
}

} // verus!
