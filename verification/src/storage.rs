//! Which locals have storage, block by block: every block must be entered
//! with the same locals live on every way that leads to it.
use crate::program::{Function, Statement};
use crate::syntax::{BbName, Terminator};
use crate::well_formed::IllFormed;
use vstd::prelude::*;

verus! {

/// Which locals are live at the start of a function: none.
pub open spec fn initial_live(f: Function) -> Seq<bool> {
    Seq::new(f.locals@.len(), |i: int| false)
}

/// The live locals after a statement, or the fault of the statement.
pub open spec fn statement_step(live: Seq<bool>, s: Statement) -> Result<Seq<bool>, IllFormed> {
    match s {
        Statement::StorageLive(l) => if l.0.0 >= live.len() {
            Err(IllFormed::NoSuchLocal)
        } else if live[l.0.0 as int] {
            Err(IllFormed::LocalAlreadyLive)
        } else {
            Ok(live.update(l.0.0 as int, true))
        },
        Statement::StorageDead(l) => if l.0.0 >= live.len() {
            Err(IllFormed::NoSuchLocal)
        } else if !live[l.0.0 as int] {
            Err(IllFormed::LocalAlreadyDead)
        } else {
            Ok(live.update(l.0.0 as int, false))
        },
    }
}

/// The live locals after the first `n` of the statements, or the first fault
/// among them.
pub open spec fn run_statements(live: Seq<bool>, statements: Seq<Statement>, n: nat) -> Result<
    Seq<bool>,
    IllFormed,
>
    decreases n,
{
    if n == 0 || n > statements.len() {
        Ok(live)
    } else {
        match run_statements(live, statements, (n - 1) as nat) {
            Ok(before) => statement_step(before, statements[n - 1]),
            Err(fault) => Err(fault),
        }
    }
}

/// The blocks that may follow a terminator.
pub open spec fn successors(t: Terminator) -> Seq<BbName> {
    match t {
        Terminator::Goto(b) => seq![b],
        Terminator::Switch { cases, fallback, .. } => Seq::new(
            cases@.len(),
            |i: int| cases@[i].1,
        ).push(fallback),
        Terminator::Unreachable => Seq::empty(),
        Terminator::Intrinsic { next_block, .. } => match next_block {
            Some(b) => seq![b],
            None => Seq::empty(),
        },
        Terminator::Call { next_block, .. } => match next_block {
            Some(b) => seq![b],
            None => Seq::empty(),
        },
        Terminator::Return => Seq::empty(),
    }
}

/// The blocks that may follow the block `b`.
pub open spec fn successors_of_block(f: Function, b: int) -> Seq<BbName> {
    successors(f.blocks@[b].terminator)
}

/// The live locals at the end of the block `b` that is entered with `live`,
/// or the first fault among its statements.
pub open spec fn block_exit(f: Function, b: int, live: Seq<bool>) -> Result<Seq<bool>, IllFormed> {
    run_statements(live, f.blocks@[b].statements@, f.blocks@[b].statements@.len())
}

/// Whether the block `b` keeps to `entry`: entered with the live locals that
/// `entry` gives it, it runs without a fault, and each block that may follow
/// exists and has the live locals at the end of `b` as those it is entered
/// with.
pub open spec fn block_consistent(f: Function, entry: Seq<Option<Seq<bool>>>, b: int) -> bool {
    &&& block_exit(f, b, entry[b]->0) is Ok
    &&& forall|j: int|
        0 <= j < successors_of_block(f, b).len() ==> {
            let s = (#[trigger] successors_of_block(f, b)[j]).0.0 as int;
            s < entry.len() && entry[s] == block_exit(f, b, entry[b]->0).ok()
        }
}

/// Whether `entry` says with which live locals each block is entered: the
/// first block with those at the start of the function, every block that
/// `entry` knows keeps to it.
pub open spec fn consistent(f: Function, entry: Seq<Option<Seq<bool>>>) -> bool {
    &&& entry.len() == f.blocks@.len()
    &&& f.start.0.0 < f.blocks@.len()
    &&& entry[f.start.0.0 as int] == Some(initial_live(f))
    &&& forall|b: int|
        0 <= b < entry.len() && (#[trigger] entry[b]) is Some ==> block_consistent(f, entry, b)
}

/// Whether the storage of the locals of `f` is in order: every block that can
/// be reached is entered with the same live locals on every way to it, and
/// runs without a fault.
pub open spec fn flow_wf(f: Function) -> bool {
    exists|entry: Seq<Option<Seq<bool>>>| consistent(f, entry)
}

/// Whether the block `b` follows the block `p` and is entered with `live`
/// when `p` is entered with `before`: `live` are the live locals at the end
/// of `p`, and `b` is the `j`-th of the blocks that may follow `p`.
pub open spec fn steps_into(
    f: Function,
    p: int,
    before: Seq<bool>,
    j: int,
    b: int,
    live: Seq<bool>,
) -> bool {
    &&& 0 <= p < f.blocks@.len()
    &&& block_exit(f, p, before) == Ok::<Seq<bool>, IllFormed>(live)
    &&& 0 <= j < successors_of_block(f, p).len()
    &&& successors_of_block(f, p)[j].0.0 == b
}

/// Whether the block `b` is entered with `live` on a way of at most `k`
/// blocks before it.
pub open spec fn entered_within(f: Function, b: int, live: Seq<bool>, k: nat) -> bool
    decreases k,
{
    (b == f.start.0.0 && live == initial_live(f)) || (k > 0 && exists|
        p: int,
        before: Seq<bool>,
        j: int,
    | #[trigger]
        steps_into(f, p, before, j, b, live) && entered_within(f, p, before, (k - 1) as nat))
}

/// Whether the block `b` is entered with `live` on some way.
pub open spec fn entered(f: Function, b: int, live: Seq<bool>) -> bool {
    exists|k: nat| entered_within(f, b, live, k)
}

/// The fault of the block `b` when it is entered with `live`: that there is
/// no such block, or the first fault among its statements.
pub open spec fn block_fault(f: Function, b: int, live: Seq<bool>) -> Option<IllFormed> {
    if b >= f.blocks@.len() {
        Some(IllFormed::NoSuchBlock)
    } else {
        match block_exit(f, b, live) {
            Ok(_) => None,
            Err(fault) => Some(fault),
        }
    }
}

/// Whether the storage of the locals of `f` has the fault `fault`: a block
/// has it on some way on which it is entered, or, for differing live locals,
/// a block is entered with different ones on two ways.
pub open spec fn flow_fault(f: Function, fault: IllFormed) -> bool {
    ||| exists|b: int, live: Seq<bool>|
        entered(f, b, live) && #[trigger] block_fault(f, b, live) == Some(fault)
    ||| fault == IllFormed::LiveLocalsDiffer && exists|b: int, one: Seq<bool>, other: Seq<bool>|
        #![trigger entered(f, b, one), entered(f, b, other)]
        entered(f, b, one) && entered(f, b, other) && one != other
}

/// A block that is entered on some way is known to every consistent entry,
/// with the live locals it is entered with.
pub proof fn lemma_entered_is_known(
    f: Function,
    entry: Seq<Option<Seq<bool>>>,
    b: int,
    live: Seq<bool>,
    k: nat,
)
    requires
        consistent(f, entry),
        entered_within(f, b, live, k),
    ensures
        0 <= b < f.blocks@.len(),
        entry[b] == Some(live),
    decreases k,
{
    if !(b == f.start.0.0 && live == initial_live(f)) {
        let (p, before, j) = choose|p: int, before: Seq<bool>, j: int| #[trigger]
            steps_into(f, p, before, j, b, live) && entered_within(
                f,
                p,
                before,
                (k - 1) as nat,
            );
        lemma_entered_is_known(f, entry, p, before, (k - 1) as nat);
        assert(block_consistent(f, entry, p));
        let s = successors_of_block(f, p)[j];
    }
}

/// A function with a fault in the storage of its locals is not in order.
pub proof fn lemma_fault_excludes_order(f: Function, fault: IllFormed)
    requires
        flow_fault(f, fault),
    ensures
        !flow_wf(f),
{
    if flow_wf(f) {
        let entry = choose|entry: Seq<Option<Seq<bool>>>| consistent(f, entry);
        if exists|b: int, live: Seq<bool>|
            entered(f, b, live) && #[trigger] block_fault(f, b, live) == Some(fault) {
            let (b, live) = choose|b: int, live: Seq<bool>|
                entered(f, b, live) && #[trigger] block_fault(f, b, live) == Some(fault);
            let k = choose|k: nat| entered_within(f, b, live, k);
            lemma_entered_is_known(f, entry, b, live, k);
            assert(block_consistent(f, entry, b));
        } else {
            let (b, one, other) = choose|b: int, one: Seq<bool>, other: Seq<bool>|
                #![trigger entered(f, b, one), entered(f, b, other)]
                entered(f, b, one) && entered(f, b, other) && one != other;
            let k1 = choose|k: nat| entered_within(f, b, one, k);
            let k2 = choose|k: nat| entered_within(f, b, other, k);
            lemma_entered_is_known(f, entry, b, one, k1);
            lemma_entered_is_known(f, entry, b, other, k2);
        }
    }
}

/// The live locals that a list of known entries stands for.
pub open spec fn entry_view(entry: Seq<Option<Vec<bool>>>) -> Seq<Option<Seq<bool>>> {
    Seq::new(
        entry.len(),
        |i: int|
            match entry[i] {
                Some(live) => Some(live@),
                None => None,
            },
    )
}

/// The number of blocks of which nothing is known.
pub open spec fn unknown_count(entry: Seq<Option<Seq<bool>>>) -> nat
    decreases entry.len(),
{
    if entry.len() == 0 {
        0
    } else {
        unknown_count(entry.drop_last()) + if entry.last() is None {
            1nat
        } else {
            0nat
        }
    }
}

/// Getting to know a block leaves one block less unknown.
pub proof fn lemma_unknown_count_update(entry: Seq<Option<Seq<bool>>>, s: int, live: Seq<bool>)
    requires
        0 <= s < entry.len(),
        entry[s] is None,
    ensures
        unknown_count(entry.update(s, Some(live))) + 1 == unknown_count(entry),
    decreases entry.len(),
{
    let updated = entry.update(s, Some(live));
    if s == entry.len() - 1 {
        assert(updated.drop_last() =~= entry.drop_last());
    } else {
        lemma_unknown_count_update(entry.drop_last(), s, live);
        assert(updated.drop_last() =~= entry.drop_last().update(s, Some(live)));
    }
}

/// What the search knows of the blocks found so far: each is entered on some
/// way with the live locals noted for it, and every consistent entry knows it
/// with them.
pub open spec fn found(f: Function, entry: Seq<Option<Seq<bool>>>) -> bool {
    &&& entry.len() == f.blocks@.len()
    &&& f.start.0.0 < f.blocks@.len()
    &&& entry[f.start.0.0 as int] == Some(initial_live(f))
    &&& forall|b: int|
        0 <= b < entry.len() && (#[trigger] entry[b]) is Some ==> entered(f, b, entry[b]->0)
    &&& forall|other: Seq<Option<Seq<bool>>>, b: int|
        #![trigger consistent(f, other), entry[b]]
        consistent(f, other) && 0 <= b < entry.len() && entry[b] is Some ==> other[b] == entry[b]
}

/// At the start only the first block is found.
pub proof fn lemma_found_at_start(f: Function, entry: Seq<Option<Seq<bool>>>)
    requires
        entry.len() == f.blocks@.len(),
        f.start.0.0 < f.blocks@.len(),
        entry[f.start.0.0 as int] == Some(initial_live(f)),
        forall|b: int| 0 <= b < entry.len() && b != f.start.0.0 ==> entry[b] is None,
    ensures
        found(f, entry),
{
    assert(entered_within(f, f.start.0.0 as int, initial_live(f), 0));
}

/// A block that follows a found block is found with the live locals at the
/// end of that block.
pub proof fn lemma_found_more(f: Function, entry: Seq<Option<Seq<bool>>>, b: int, j: int)
    requires
        found(f, entry),
        0 <= b < entry.len(),
        entry[b] is Some,
        block_exit(f, b, entry[b]->0) is Ok,
        0 <= j < successors_of_block(f, b).len(),
        successors_of_block(f, b)[j].0.0 < entry.len(),
        entry[successors_of_block(f, b)[j].0.0 as int] is None,
    ensures
        found(
            f,
            entry.update(
                successors_of_block(f, b)[j].0.0 as int,
                block_exit(f, b, entry[b]->0).ok(),
            ),
        ),
{
    let s = successors_of_block(f, b)[j].0.0 as int;
    let exit = block_exit(f, b, entry[b]->0)->Ok_0;
    let more = entry.update(s, Some(exit));
    let k = choose|k: nat| entered_within(f, b, entry[b]->0, k);
    assert(entered_within(f, s, exit, k + 1)) by {
        assert(entered_within(f, b, entry[b]->0, ((k + 1) - 1) as nat));
        assert(steps_into(f, b, entry[b]->0, j, s, exit));
    }
    assert(entered(f, s, exit));
    assert forall|c: int| 0 <= c < more.len() && (#[trigger] more[c]) is Some implies entered(
        f,
        c,
        more[c]->0,
    ) by {
        if c != s {
            assert(entry[c] is Some);
        }
    }
    assert forall|other: Seq<Option<Seq<bool>>>, c: int|
        #![trigger consistent(f, other), more[c]]
        consistent(f, other) && 0 <= c < more.len() && more[c] is Some implies other[c]
        == more[c] by {
        if c == s {
            assert(other[b] == entry[b]);
            assert(block_consistent(f, other, b));
            let t = successors_of_block(f, b)[j];
        } else {
            assert(other[c] == entry[c]);
        }
    }
}

/// A fault in a found block is a fault of the function, and the function is
/// not in order.
pub proof fn lemma_found_fault(f: Function, entry: Seq<Option<Seq<bool>>>, b: int, fault: IllFormed)
    requires
        found(f, entry),
        0 <= b < entry.len(),
        entry[b] is Some,
        block_exit(f, b, entry[b]->0) == Err::<Seq<bool>, IllFormed>(fault),
    ensures
        flow_fault(f, fault),
        !flow_wf(f),
{
    assert(entered(f, b, entry[b]->0));
    assert(block_fault(f, b, entry[b]->0) == Some(fault));
    lemma_fault_excludes_order(f, fault);
}

/// A block that is missing behind a found block is a fault of the function.
pub proof fn lemma_found_missing(f: Function, entry: Seq<Option<Seq<bool>>>, b: int, j: int)
    requires
        found(f, entry),
        0 <= b < entry.len(),
        entry[b] is Some,
        block_exit(f, b, entry[b]->0) is Ok,
        0 <= j < successors_of_block(f, b).len(),
        successors_of_block(f, b)[j].0.0 >= entry.len(),
    ensures
        flow_fault(f, IllFormed::NoSuchBlock),
        !flow_wf(f),
{
    let s = successors_of_block(f, b)[j].0.0 as int;
    let exit = block_exit(f, b, entry[b]->0)->Ok_0;
    let k = choose|k: nat| entered_within(f, b, entry[b]->0, k);
    assert(entered_within(f, s, exit, k + 1)) by {
        assert(entered_within(f, b, entry[b]->0, ((k + 1) - 1) as nat));
        assert(steps_into(f, b, entry[b]->0, j, s, exit));
    }
    assert(entered(f, s, exit));
    assert(block_fault(f, s, exit) == Some(IllFormed::NoSuchBlock));
    lemma_fault_excludes_order(f, IllFormed::NoSuchBlock);
}

/// A block that is found with other live locals than those at the end of a
/// found block that it follows is a fault of the function.
pub proof fn lemma_found_differs(f: Function, entry: Seq<Option<Seq<bool>>>, b: int, j: int)
    requires
        found(f, entry),
        0 <= b < entry.len(),
        entry[b] is Some,
        block_exit(f, b, entry[b]->0) is Ok,
        0 <= j < successors_of_block(f, b).len(),
        successors_of_block(f, b)[j].0.0 < entry.len(),
        entry[successors_of_block(f, b)[j].0.0 as int] is Some,
        entry[successors_of_block(f, b)[j].0.0 as int] != block_exit(f, b, entry[b]->0).ok(),
    ensures
        flow_fault(f, IllFormed::LiveLocalsDiffer),
        !flow_wf(f),
{
    let s = successors_of_block(f, b)[j].0.0 as int;
    let exit = block_exit(f, b, entry[b]->0)->Ok_0;
    let k = choose|k: nat| entered_within(f, b, entry[b]->0, k);
    assert(entered_within(f, s, exit, k + 1)) by {
        assert(entered_within(f, b, entry[b]->0, ((k + 1) - 1) as nat));
        assert(steps_into(f, b, entry[b]->0, j, s, exit));
    }
    assert(entered(f, s, exit));
    assert(entered(f, s, entry[s]->0));
    lemma_fault_excludes_order(f, IllFormed::LiveLocalsDiffer);
}

/// A copy of the live locals.
pub fn copy_live(live: &Vec<bool>) -> (r: Vec<bool>)
    ensures
        r@ == live@,
{
    let n = live.len();
    let mut out: Vec<bool> = Vec::new();
    let mut i: usize = 0;
    while i < n
        invariant
            i <= n == live@.len(),
            out@ == live@.take(i as int),
        decreases n - i,
    {
        out.push(live[i]);
        proof {
            assert(out@ =~= live@.take(i + 1));
        }
        i = i + 1;
    }
    assert(live@.take(n as int) =~= live@);
    out
}

/// Whether the same locals are live.
pub fn same_live(one: &Vec<bool>, other: &Vec<bool>) -> (r: bool)
    ensures
        r == (one@ == other@),
{
    if one.len() != other.len() {
        return false;
    }
    let n = one.len();
    let mut i: usize = 0;
    while i < n
        invariant
            i <= n == one@.len() == other@.len(),
            forall|j: int| 0 <= j < i ==> one@[j] == other@[j],
        decreases n - i,
    {
        if one[i] != other[i] {
            return false;
        }
        i = i + 1;
    }
    assert(one@ =~= other@);
    true
}

/// The blocks that may follow a terminator.
pub fn successors_of(t: &Terminator) -> (r: Vec<BbName>)
    ensures
        r@ == successors(*t),
{
    let mut out: Vec<BbName> = Vec::new();
    match t {
        Terminator::Goto(b) => {
            out.push(*b);
        },
        Terminator::Switch { cases, fallback, .. } => {
            let n = cases.len();
            let mut i: usize = 0;
            while i < n
                invariant
                    i <= n == cases@.len(),
                    out@ == Seq::new(i as nat, |k: int| cases@[k].1),
                decreases n - i,
            {
                out.push(cases[i].1);
                proof {
                    assert(out@ =~= Seq::new((i + 1) as nat, |k: int| cases@[k].1));
                }
                i = i + 1;
            }
            out.push(*fallback);
        },
        Terminator::Unreachable => {},
        Terminator::Intrinsic { next_block, .. } => {
            match next_block {
                Some(b) => {
                    out.push(*b);
                },
                None => {},
            }
        },
        Terminator::Call { next_block, .. } => {
            match next_block {
                Some(b) => {
                    out.push(*b);
                },
                None => {},
            }
        },
        Terminator::Return => {},
    }
    assert(out@ =~= successors(*t));
    out
}

impl Function {
    /// Runs the statements of the block `b` on the live locals `live`.
    pub fn run_block(&self, b: usize, live: &Vec<bool>) -> (r: Result<Vec<bool>, IllFormed>)
        requires
            b < self.blocks@.len(),
        ensures
            match block_exit(*self, b as int, live@) {
                Ok(exit) => r matches Ok(out) && out@ == exit,
                Err(fault) => r matches Err(e) && e == fault,
            },
    {
        let statements = &self.blocks[b].statements;
        let n = statements.len();
        let mut now = copy_live(live);
        let mut i: usize = 0;
        while i < n
            invariant
                i <= n == statements@.len(),
                statements@ == self.blocks@[b as int].statements@,
                run_statements(live@, statements@, i as nat) == Ok::<Seq<bool>, IllFormed>(now@),
            decreases n - i,
        {
            let (local, wanted) = match statements[i] {
                Statement::StorageLive(l) => (l.0.0 as usize, false),
                Statement::StorageDead(l) => (l.0.0 as usize, true),
            };
            if local >= now.len() {
                proof {
                    lemma_statement_fault_stays(live@, statements@, (i + 1) as nat, n as nat);
                }
                return Err(IllFormed::NoSuchLocal);
            }
            if now[local] != wanted {
                proof {
                    lemma_statement_fault_stays(live@, statements@, (i + 1) as nat, n as nat);
                }
                return Err(
                    if wanted {
                        IllFormed::LocalAlreadyDead
                    } else {
                        IllFormed::LocalAlreadyLive
                    },
                );
            }
            now.set(local, !wanted);
            i = i + 1;
        }
        Ok(now)
    }

    /// Checks the storage of the locals: follows the blocks from the first
    /// one on, and notes for each with which live locals it is entered.
    pub fn check_storage(&self) -> (r: Result<(), IllFormed>)
        ensures
            r is Ok <==> flow_wf(*self),
            r matches Err(fault) ==> flow_fault(*self, fault),
    {
        let n = self.blocks.len();
        let start = self.start.0.0 as usize;

        let mut at_start: Vec<bool> = Vec::new();
        let mut i: usize = 0;
        while i < self.locals.len()
            invariant
                i <= self.locals@.len(),
                at_start@ == Seq::new(i as nat, |k: int| false),
            decreases self.locals@.len() - i,
        {
            at_start.push(false);
            proof {
                assert(at_start@ =~= Seq::new((i + 1) as nat, |k: int| false));
            }
            i = i + 1;
        }
        if start >= n {
            proof {
                assert(entered_within(*self, start as int, initial_live(*self), 0));
                assert(entered(*self, start as int, initial_live(*self)));
                assert(block_fault(*self, start as int, initial_live(*self)) == Some(
                    IllFormed::NoSuchBlock,
                ));
                lemma_fault_excludes_order(*self, IllFormed::NoSuchBlock);
            }
            return Err(IllFormed::NoSuchBlock);
        }
        let mut entry: Vec<Option<Vec<bool>>> = Vec::new();
        let mut i: usize = 0;
        while i < n
            invariant
                i <= n,
                entry@.len() == i,
                forall|k: int| 0 <= k < i ==> (#[trigger] entry@[k]) is None,
            decreases n - i,
        {
            entry.push(None);
            i = i + 1;
        }
        entry.set(start, Some(at_start));
        proof {
            lemma_found_at_start(*self, entry_view(entry@));
        }

        let mut changed = true;
        while changed
            invariant
                n == self.blocks@.len() == entry@.len(),
                found(*self, entry_view(entry@)),
                !changed ==> consistent(*self, entry_view(entry@)),
            decreases
                    unknown_count(entry_view(entry@)) + if changed {
                        1nat
                    } else {
                        0nat
                    },
        {
            changed = false;
            let ghost before = entry_view(entry@);
            let mut b: usize = 0;
            while b < n
                invariant
                    b <= n == self.blocks@.len() == entry@.len(),
                    found(*self, entry_view(entry@)),
                    changed ==> unknown_count(entry_view(entry@)) < unknown_count(before),
                    !changed ==> entry_view(entry@) == before,
                    !changed ==> forall|c: int|
                        0 <= c < b && (#[trigger] entry_view(entry@)[c]) is Some
                            ==> block_consistent(*self, entry_view(entry@), c),
                decreases n - b,
            {
                let ran = match &entry[b] {
                    Some(live) => Some(self.run_block(b, live)),
                    None => None,
                };
                match ran {
                    None => {},
                    Some(Err(fault)) => {
                        proof {
                            lemma_found_fault(*self, entry_view(entry@), b as int, fault);
                        }
                        return Err(fault);
                    },
                    Some(Ok(exit)) => {
                        let next = successors_of(&self.blocks[b].terminator);
                        let mut j: usize = 0;
                        while j < next.len()
                            invariant
                                j <= next@.len(),
                                b < n == self.blocks@.len() == entry@.len(),
                                next@ == successors_of_block(*self, b as int),
                                found(*self, entry_view(entry@)),
                                entry_view(entry@)[b as int] is Some,
                                block_exit(*self, b as int, entry_view(entry@)[b as int]->0)
                                    == Ok::<Seq<bool>, IllFormed>(exit@),
                                changed ==> unknown_count(entry_view(entry@)) < unknown_count(
                                    before,
                                ),
                                !changed ==> entry_view(entry@) == before,
                                !changed ==> forall|c: int|
                                    0 <= c < b && (#[trigger] entry_view(entry@)[c]) is Some
                                        ==> block_consistent(*self, entry_view(entry@), c),
                                forall|k: int|
                                    0 <= k < j ==> {
                                        let s = (#[trigger] next@[k]).0.0 as int;
                                        s < n && entry_view(entry@)[s] == Some(exit@)
                                    },
                            decreases next@.len() - j,
                        {
                            let s = next[j].0.0 as usize;
                            if s >= n {
                                proof {
                                    lemma_found_missing(
                                        *self,
                                        entry_view(entry@),
                                        b as int,
                                        j as int,
                                    );
                                }
                                return Err(IllFormed::NoSuchBlock);
                            }
                            let known = match &entry[s] {
                                Some(live) => Some(same_live(live, &exit)),
                                None => None,
                            };
                            match known {
                                Some(true) => {},
                                Some(false) => {
                                    proof {
                                        lemma_found_differs(
                                            *self,
                                            entry_view(entry@),
                                            b as int,
                                            j as int,
                                        );
                                    }
                                    return Err(IllFormed::LiveLocalsDiffer);
                                },
                                None => {
                                    let ghost old_view = entry_view(entry@);
                                    proof {
                                        lemma_found_more(*self, old_view, b as int, j as int);
                                        lemma_unknown_count_update(old_view, s as int, exit@);
                                    }
                                    entry.set(s, Some(copy_live(&exit)));
                                    proof {
                                        assert(entry_view(entry@) =~= old_view.update(
                                            s as int,
                                            Some(exit@),
                                        ));
                                    }
                                    changed = true;
                                },
                            }
                            j = j + 1;
                        }
                    },
                }
                b = b + 1;
            }
        }
        Ok(())
    }
}

/// A fault among the first statements is the first fault among more of them.
pub proof fn lemma_statement_fault_stays(live: Seq<bool>, statements: Seq<Statement>, k: nat, n: nat)
    requires
        run_statements(live, statements, k) is Err,
        k <= n <= statements.len(),
    ensures
        run_statements(live, statements, n) == run_statements(live, statements, k),
    decreases n,
{
    if k < n {
        lemma_statement_fault_stays(live, statements, k, (n - 1) as nat);
    }
}

} // verus!
