//! The durable ledger and its replay: every accepted command is
//! appended before its effect is applied, and replaying the ledger from
//! an empty engine reproduces the live engine exactly.

use crate::engine::engine_wf;
use crate::engine::spec_order_execution;
use crate::engine::EngineModel;
use crate::engine::MatchingEngine;
use crate::order::spec_validate_msg;
use crate::wire::spec_wire_order;
use crate::wire::wire_parses;
use crate::wire::OrderWire;
use crate::wire::WireModel;
use vstd::prelude::*;

verus! {

/// One durably ordered ledger record: the raw accepted command.
#[derive(Debug)]
pub enum LedgerEntry {
    NewOrder(OrderWire),
}

/// The mathematical content of a [`LedgerEntry`].
#[verifier::ext_equal]
pub ghost enum LedgerEntryModel {
    NewOrder(WireModel),
}

impl View for LedgerEntry {
    type V = LedgerEntryModel;

    open spec fn view(&self) -> LedgerEntryModel {
        match self {
            LedgerEntry::NewOrder(w) => LedgerEntryModel::NewOrder(w@),
        }
    }
}

impl Clone for LedgerEntry {
    fn clone(&self) -> (r: Self)
        ensures
            r@ == self@,
    {
        match self {
            LedgerEntry::NewOrder(w) => LedgerEntry::NewOrder(w.clone()),
        }
    }
}

/// The view of a ledger.
pub open spec fn ledger_model(s: Seq<LedgerEntry>) -> Seq<LedgerEntryModel> {
    s.map_values(|e: LedgerEntry| e@)
}

/// An engine with no books and no markets, as freshly constructed.
pub open spec fn spec_empty_engine() -> EngineModel {
    EngineModel { books: Seq::empty(), markets: Seq::empty() }
}

/// The effect one ledger entry has on the engine: a command that
/// parses and validates is executed exactly as the live path executes
/// it; any other command changes nothing (its rejection is observable
/// only as events, which replay suppresses).
pub open spec fn spec_apply_entry(e: EngineModel, entry: LedgerEntryModel) -> EngineModel {
    match entry {
        LedgerEntryModel::NewOrder(w) => if wire_parses(w) {
            spec_order_execution(e, spec_wire_order(w)).0
        } else {
            e
        },
    }
}

/// Replay: fold the entries over an engine, oldest first.
pub open spec fn spec_replay_from(e: EngineModel, entries: Seq<LedgerEntryModel>) -> EngineModel
    decreases entries.len(),
{
    if entries.len() == 0 {
        e
    } else {
        spec_replay_from(spec_apply_entry(e, entries[0]), entries.drop_first())
    }
}

/// Replay the full ledger into a fresh engine.
pub open spec fn spec_replay(entries: Seq<LedgerEntryModel>) -> EngineModel {
    spec_replay_from(spec_empty_engine(), entries)
}

/// The live run: starting from a fresh engine and an empty ledger,
/// each command is appended to the ledger before its effect is
/// applied.
pub open spec fn spec_live_from(
    e: EngineModel,
    ledger: Seq<LedgerEntryModel>,
    commands: Seq<LedgerEntryModel>,
) -> (EngineModel, Seq<LedgerEntryModel>)
    decreases commands.len(),
{
    if commands.len() == 0 {
        (e, ledger)
    } else {
        spec_live_from(
            spec_apply_entry(e, commands[0]),
            ledger.push(commands[0]),
            commands.drop_first(),
        )
    }
}

/// The live run over a command sequence, from empty state.
pub open spec fn spec_live_run(commands: Seq<LedgerEntryModel>) -> (
    EngineModel,
    Seq<LedgerEntryModel>,
) {
    spec_live_from(spec_empty_engine(), Seq::empty(), commands)
}

/// Replay reconstructs the live engine: for any command sequence, the
/// live run's ledger is exactly the commands in order, and replaying
/// that ledger from a fresh engine yields an engine equal to the live
/// one — book depth, fair prices and volumes included, since the whole
/// engine models are equal.
pub proof fn lemma_replay_reconstructs(commands: Seq<LedgerEntryModel>)
    ensures
        spec_live_run(commands).1 == commands,
        spec_replay(spec_live_run(commands).1) == spec_live_run(commands).0,
{
    lemma_live_vs_replay(spec_empty_engine(), Seq::empty(), commands);
    assert(Seq::<LedgerEntryModel>::empty() + commands =~= commands);
}

/// The general induction behind [`lemma_replay_reconstructs`]: a live
/// run extends the ledger by exactly its commands, and its engine is
/// the replay of those commands over the starting engine.
pub proof fn lemma_live_vs_replay(
    e: EngineModel,
    ledger: Seq<LedgerEntryModel>,
    commands: Seq<LedgerEntryModel>,
)
    ensures
        spec_live_from(e, ledger, commands).1 == ledger + commands,
        spec_live_from(e, ledger, commands).0 == spec_replay_from(e, commands),
    decreases commands.len(),
{
    if commands.len() == 0 {
        assert(ledger + commands =~= ledger);
    } else {
        lemma_live_vs_replay(
            spec_apply_entry(e, commands[0]),
            ledger.push(commands[0]),
            commands.drop_first(),
        );
        assert(ledger.push(commands[0]) + commands.drop_first() =~= ledger + commands);
    }
}

/// Replay a ledger into an engine, applying each entry exactly as the
/// live path would, with all external side effects suppressed.
pub fn replay_ledger(engine: &mut MatchingEngine, entries: &Vec<LedgerEntry>)
    requires
        old(engine).wf(),
    ensures
        final(engine).wf(),
        final(engine)@ == spec_replay_from(old(engine)@, ledger_model(entries@)),
{
    let ghost lm = ledger_model(entries@);
    let ghost e0 = engine@;
    proof {
        assert(lm.skip(0) =~= lm);
    }
    let mut i: usize = 0;
    while i < entries.len()
        invariant
            i <= entries.len(),
            lm == ledger_model(entries@),
            engine.wf(),
            spec_replay_from(e0, lm) == spec_replay_from(engine@, lm.skip(i as int)),
        decreases entries.len() - i,
    {
        let ghost pre = engine@;
        let LedgerEntry::NewOrder(w) = &entries[i];
        proof {
            assert(lm[i as int] == entries@[i as int]@);
        }
        match crate::wire::order_from_wire(w) {
            Ok(order) => {
                proof {
                    assert(order@.valid());
                }
                let _r = engine.order_execution(&order);
            },
            Err(_e) => {
            },
        }
        proof {
            let iv = i as int;
            assert(lm.skip(iv)[0] == lm[iv]);
            assert(lm.skip(iv).drop_first() =~= lm.skip(iv + 1));
            assert(engine@ == spec_apply_entry(pre, lm[iv]));
            assert(spec_replay_from(pre, lm.skip(iv)) == spec_replay_from(
                spec_apply_entry(pre, lm[iv]),
                lm.skip(iv + 1),
            ));
        }
        i = i + 1;
    }
    proof {
        assert(lm.skip(lm.len() as int) =~= Seq::<LedgerEntryModel>::empty());
    }
}

} // verus!
