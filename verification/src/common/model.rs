//! What resolving a sample gives: identifiers drawn from a nonce, addresses
//! resolved through the notebook, and replies through the registry of
//! message identifiers.
use vstd::prelude::*;

use crate::ids::{id_bytes_of_u64, MessageId};
use crate::sample::address::{chain_address_id, Address};
use crate::sample::message::{is_copy_of, is_list_copy_of, Message as SampleMessage};
use crate::sample::step::Step as SampleStep;

use super::tables::all_initialized;
use super::types::{opt_seq, MessageView, StepNumber, StepView, WasmProgramView};
use crate::sample::fixture::Fixture as SampleFixture;
use crate::sample::actor::{actor_address, actor_bind, Actor};

verus! {

/// Whether every call of `f` on the same argument gives the same result.
pub open spec fn deterministic<T, R, F: Fn(T) -> core::result::Result<R, String>>(f: F) -> bool {
    forall|x: T, a: core::result::Result<R, String>, b: core::result::Result<R, String>|
        call_ensures(f, (x,), a) && call_ensures(f, (x,), b) ==> a == b
}

/// A result that `f` may give on `x`.
pub open spec fn applied<T, R, F: Fn(T) -> core::result::Result<R, String>>(f: F, x: T) -> core::result::Result<R, String> {
    choose|r: core::result::Result<R, String>| call_ensures(f, (x,), r)
}

/// Applying `f` to the items in order, stopping at the first error.
pub open spec fn transform_seq<T, R, F: Fn(T) -> core::result::Result<R, String>>(
    f: F,
    s: Seq<T>,
) -> core::result::Result<Seq<R>, String>
    decreases s.len(),
{
    if s.len() == 0 {
        Ok(Seq::empty())
    } else {
        match transform_seq(f, s.drop_last()) {
            Err(e) => Err(e),
            Ok(v) => match applied(f, s.last()) {
                Ok(x) => Ok(v.push(x)),
                Err(e) => Err(e),
            },
        }
    }
}

/// Once applying `f` to a prefix fails, applying it to the whole list fails
/// with the same error.
pub proof fn lemma_transform_seq_stops<T, R, F: Fn(T) -> core::result::Result<R, String>>(
    f: F,
    s: Seq<T>,
    k: int,
)
    requires
        0 <= k <= s.len(),
        transform_seq(f, s.take(k)) is Err,
    ensures
        transform_seq(f, s) == transform_seq(f, s.take(k)),
    decreases s.len() - k,
{
    if k < s.len() {
        let d = s.drop_last();
        assert(d.take(k) =~= s.take(k));
        lemma_transform_seq_stops(f, d, k);
    } else {
        assert(s.take(k) =~= s);
    }
}

/// The outcome of one stage of resolution: its result (`None` when it
/// fails), the nonce after it, and the registry of message identifiers
/// after it. A failure leaves the nonce and registry as they stand at the
/// moment of failure.
pub struct Resolution<T> {
    pub result: Option<T>,
    pub nonce: int,
    pub registry: Map<u64, Seq<u8>>,
}

/// The registry of message identifiers, by their bytes.
pub open spec fn registry_view(m: Map<u64, MessageId>) -> Map<u64, Seq<u8>> {
    m.map_values(|id: MessageId| id@)
}

/// The identifier of the superuser, source of messages that name none.
pub open spec fn superuser_id() -> Seq<u8> {
    id_bytes_of_u64(0)
}

/// An address resolved through the notebook; `None` for an unbound
/// keyword.
pub open spec fn resolve_address(a: Address, notebook: Map<Seq<char>, Seq<u8>>) -> Option<Seq<u8>> {
    match a {
        Address::Bind(k) => if notebook.contains_key(k@) {
            Some(notebook[k@])
        } else {
            None
        },
        Address::ChainAddress(c) => Some(chain_address_id(c)),
    }
}

/// The source of a message: its address resolved, or the superuser.
pub open spec fn message_source(m: SampleMessage, notebook: Map<Seq<char>, Seq<u8>>) -> Option<
    Seq<u8>,
> {
    match m.source {
        Some(a) => resolve_address(a, notebook),
        None => Some(superuser_id()),
    }
}

/// The destination of a message: its address resolved; none is an error.
pub open spec fn message_dest(m: SampleMessage, notebook: Map<Seq<char>, Seq<u8>>) -> Option<
    Seq<u8>,
> {
    match m.dest {
        Some(a) => resolve_address(a, notebook),
        None => None,
    }
}

/// The registry once a message's own number (if it has one) is recorded
/// with the identifier drawn from `nonce`.
pub open spec fn register_message(
    m: SampleMessage,
    nonce: int,
    registry: Map<u64, Seq<u8>>,
) -> Map<u64, Seq<u8>> {
    match m.id {
        Some(k) => registry.insert(k, id_bytes_of_u64(nonce as u64)),
        None => registry,
    }
}

/// What a message replies to: `Some(None)` for no reply, `Some(Some(..))`
/// for the registered message it names with its exit code (0 by default),
/// `None` for an error: an unregistered message, or an exit code without a
/// reply.
pub open spec fn message_reply(m: SampleMessage, registry: Map<u64, Seq<u8>>) -> Option<
    Option<(Seq<u8>, i32)>,
> {
    match m.reply_to {
        Some(r) => if registry.contains_key(r) {
            Some(
                Some(
                    (
                        registry[r],
                        match m.exit_code {
                            Some(c) => c,
                            None => 0i32,
                        },
                    ),
                ),
            )
        } else {
            None
        },
        None => if m.exit_code is Some {
            None
        } else {
            Some(None)
        },
    }
}

/// Resolving one message with the nonce at `nonce`: it takes the
/// identifier drawn from the nonce, advances the nonce by one and records
/// its number, whether or not it then resolves. It fails on an unbound
/// keyword, a missing destination, a payload, or a bad reply.
pub open spec fn resolve_message(
    m: SampleMessage,
    nonce: int,
    notebook: Map<Seq<char>, Seq<u8>>,
    registry: Map<u64, Seq<u8>>,
) -> Resolution<MessageView> {
    let registry2 = register_message(m, nonce, registry);
    let result = match (message_source(m, notebook), message_dest(m, notebook), message_reply(m, registry2)) {
        (Some(source), Some(dest), Some(reply)) => if m.payload is Some {
            None
        } else {
            Some(
                MessageView {
                    id: id_bytes_of_u64(nonce as u64),
                    source,
                    dest,
                    payload: Seq::empty(),
                    gas_limit: match m.gas_limit {
                        Some(g) => g,
                        None => u64::MAX,
                    },
                    value: match m.value {
                        Some(v) => v,
                        None => 0u128,
                    },
                    reply,
                },
            )
        },
        _ => None,
    };
    Resolution { result, nonce: nonce + 1, registry: registry2 }
}

/// Resolving messages one after the other, stopping at the first failure.
pub open spec fn resolve_messages(
    data: Seq<SampleMessage>,
    nonce: int,
    notebook: Map<Seq<char>, Seq<u8>>,
    registry: Map<u64, Seq<u8>>,
) -> Resolution<Seq<MessageView>>
    decreases data.len(),
{
    if data.len() == 0 {
        Resolution { result: Some(Seq::empty()), nonce, registry }
    } else {
        let before = resolve_messages(data.drop_last(), nonce, notebook, registry);
        match before.result {
            None => before,
            Some(done) => {
                let last = resolve_message(data.last(), before.nonce, notebook, before.registry);
                Resolution {
                    result: match last.result {
                        Some(v) => Some(done.push(v)),
                        None => None,
                    },
                    nonce: last.nonce,
                    registry: last.registry,
                }
            },
        }
    }
}

/// Resolving an optional list of messages: none gives none.
pub open spec fn resolve_opt_messages(
    data: Option<Seq<SampleMessage>>,
    nonce: int,
    notebook: Map<Seq<char>, Seq<u8>>,
    registry: Map<u64, Seq<u8>>,
) -> Resolution<Option<Seq<MessageView>>> {
    match data {
        None => Resolution { result: Some(None), nonce, registry },
        Some(v) => {
            let r = resolve_messages(v, nonce, notebook, registry);
            Resolution {
                result: match r.result {
                    Some(x) => Some(Some(x)),
                    None => None,
                },
                nonce: r.nonce,
                registry: r.registry,
            }
        },
    }
}

/// Resolving messages advances the nonce by at most one per message, and
/// by exactly one per message when all resolve.
pub proof fn lemma_resolve_messages_nonce(
    data: Seq<SampleMessage>,
    nonce: int,
    notebook: Map<Seq<char>, Seq<u8>>,
    registry: Map<u64, Seq<u8>>,
)
    ensures
        nonce <= resolve_messages(data, nonce, notebook, registry).nonce <= nonce + data.len(),
        resolve_messages(data, nonce, notebook, registry).result is Some ==> resolve_messages(
            data,
            nonce,
            notebook,
            registry,
        ).nonce == nonce + data.len(),
    decreases data.len(),
{
    if data.len() > 0 {
        lemma_resolve_messages_nonce(data.drop_last(), nonce, notebook, registry);
    }
}

/// A copy of a list of messages resolves as the list does.
pub proof fn lemma_resolve_messages_copy(
    a: Seq<SampleMessage>,
    b: Seq<SampleMessage>,
    nonce: int,
    notebook: Map<Seq<char>, Seq<u8>>,
    registry: Map<u64, Seq<u8>>,
)
    requires
        a.len() == b.len(),
        forall|i: int| 0 <= i < a.len() ==> #[trigger] is_copy_of(a[i], b[i]),
    ensures
        resolve_messages(a, nonce, notebook, registry) == resolve_messages(b, nonce, notebook, registry),
    decreases a.len(),
{
    if a.len() > 0 {
        lemma_resolve_messages_copy(a.drop_last(), b.drop_last(), nonce, notebook, registry);
        assert(is_copy_of(a[a.len() - 1], b[b.len() - 1]));
        let before = resolve_messages(a.drop_last(), nonce, notebook, registry);
        assert(resolve_message(a.last(), before.nonce, notebook, before.registry) == resolve_message(
            b.last(),
            before.nonce,
            notebook,
            before.registry,
        ));
    }
}

/// A copy of an optional list of messages resolves as the list does, and
/// has the same length.
pub proof fn lemma_resolve_opt_messages_copy(
    a: Option<Seq<SampleMessage>>,
    b: Option<Seq<SampleMessage>>,
    nonce: int,
    notebook: Map<Seq<char>, Seq<u8>>,
    registry: Map<u64, Seq<u8>>,
)
    requires
        is_list_copy_of(a, b),
    ensures
        resolve_opt_messages(a, nonce, notebook, registry) == resolve_opt_messages(
            b,
            nonce,
            notebook,
            registry,
        ),
        opt_seq_len(a) == opt_seq_len(b),
{
    if let (Some(x), Some(y)) = (a, b) {
        lemma_resolve_messages_copy(x, y, nonce, notebook, registry);
    }
}

/// Once resolving a prefix fails, resolving the whole list fails with the
/// same nonce and registry.
pub proof fn lemma_resolve_messages_stops(
    data: Seq<SampleMessage>,
    k: int,
    nonce: int,
    notebook: Map<Seq<char>, Seq<u8>>,
    registry: Map<u64, Seq<u8>>,
)
    requires
        0 <= k <= data.len(),
        resolve_messages(data.take(k), nonce, notebook, registry).result is None,
    ensures
        resolve_messages(data, nonce, notebook, registry) == resolve_messages(
            data.take(k),
            nonce,
            notebook,
            registry,
        ),
    decreases data.len() - k,
{
    if k < data.len() {
        let d = data.drop_last();
        assert(d.take(k) =~= data.take(k));
        lemma_resolve_messages_stops(d, k, nonce, notebook, registry);
    } else {
        assert(data.take(k) =~= data);
    }
}

/// Resolving a prefix of a list of messages leaves the nonce no further on
/// than resolving the whole list.
pub proof fn lemma_resolve_messages_prefix_nonce(
    data: Seq<SampleMessage>,
    k: int,
    nonce: int,
    notebook: Map<Seq<char>, Seq<u8>>,
    registry: Map<u64, Seq<u8>>,
)
    requires
        0 <= k <= data.len(),
    ensures
        resolve_messages(data.take(k), nonce, notebook, registry).nonce <= resolve_messages(
            data,
            nonce,
            notebook,
            registry,
        ).nonce,
    decreases data.len() - k,
{
    if k < data.len() {
        let d = data.drop_last();
        assert(d.take(k) =~= data.take(k));
        lemma_resolve_messages_prefix_nonce(d, k, nonce, notebook, registry);
    } else {
        assert(data.take(k) =~= data);
    }
}

/// Where the numbering of steps stands: the last number seen, and whether
/// the final (unnumbered) step has been seen.
pub struct Numbering {
    pub current: u8,
    pub found_final: bool,
}

/// The numbering before any step.
pub open spec fn initial_numbering() -> Numbering {
    Numbering { current: 0, found_final: false }
}

/// The number a step takes, and the numbering after it. A step after the
/// final step is refused, and so is a number smaller than the last one.
pub open spec fn step_number(step: SampleStep, numbering: Numbering) -> Option<(StepNumber, Numbering)> {
    if numbering.found_final {
        None
    } else {
        match step.number {
            Some(num) => if num < numbering.current {
                None
            } else {
                Some((StepNumber::Ordered(num), Numbering { current: num, found_final: false }))
            },
            None => Some(
                (StepNumber::Final, Numbering { current: numbering.current, found_final: true }),
            ),
        }
    }
}

/// An expectation list that is not supported: an empty list is kept (as
/// empty), no list stays none, and any item is refused.
pub open spec fn unsupported_list<T, R>(o: Option<Seq<T>>) -> Option<Option<Seq<R>>> {
    match o {
        None => Some(None),
        Some(v) => if v.len() == 0 {
            Some(Some(Seq::empty()))
        } else {
            None
        },
    }
}

/// A failed resolution with the given nonce and registry.
pub open spec fn failed<T>(nonce: int, registry: Map<u64, Seq<u8>>) -> Resolution<T> {
    Resolution { result: None, nonce, registry }
}

/// Resolving one step: its number, then its messages, memory, allocations,
/// wait list, query and mailbox in that order, stopping at the first
/// failure. The wait list and the mailbox are built, like the messages, from
/// the step's message list: each of the three builds draws identifiers in
/// turn, and the step's own wait list and mailbox are not read.
pub open spec fn resolve_step(
    step: SampleStep,
    numbering: Numbering,
    nonce: int,
    notebook: Map<Seq<char>, Seq<u8>>,
    registry: Map<u64, Seq<u8>>,
) -> Resolution<(StepView, Numbering)> {
    match step_number(step, numbering) {
        None => failed(nonce, registry),
        Some((number, next)) => {
            let m = resolve_opt_messages(opt_seq(step.messages), nonce, notebook, registry);
            match m.result {
                None => failed(m.nonce, m.registry),
                Some(messages) => match unsupported_list(opt_seq(step.memory)) {
                    None => failed(m.nonce, m.registry),
                    Some(memory) => match unsupported_list(opt_seq(step.allocations)) {
                        None => failed(m.nonce, m.registry),
                        Some(allocations) => {
                            let w = resolve_opt_messages(
                                opt_seq(step.messages),
                                m.nonce,
                                notebook,
                                m.registry,
                            );
                            match w.result {
                                None => failed(w.nonce, w.registry),
                                Some(waitlist) => match unsupported_list(opt_seq(step.query)) {
                                    None => failed(w.nonce, w.registry),
                                    Some(query) => {
                                        let b = resolve_opt_messages(
                                            opt_seq(step.messages),
                                            w.nonce,
                                            notebook,
                                            w.registry,
                                        );
                                        match b.result {
                                            None => failed(b.nonce, b.registry),
                                            Some(mailbox) => Resolution {
                                                result: Some(
                                                    (
                                                        StepView {
                                                            number,
                                                            immortal: match step.immortal {
                                                                Some(i) => i,
                                                                None => false,
                                                            },
                                                            messages,
                                                            memory,
                                                            allocations,
                                                            waitlist,
                                                            query,
                                                            mailbox,
                                                        },
                                                        next,
                                                    ),
                                                ),
                                                nonce: b.nonce,
                                                registry: b.registry,
                                            },
                                        }
                                    },
                                },
                            }
                        },
                    },
                },
            }
        },
    }
}

/// Resolving steps one after the other from the initial numbering,
/// stopping at the first failure.
pub open spec fn resolve_steps(
    steps: Seq<SampleStep>,
    nonce: int,
    notebook: Map<Seq<char>, Seq<u8>>,
    registry: Map<u64, Seq<u8>>,
) -> Resolution<(Seq<StepView>, Numbering)>
    decreases steps.len(),
{
    if steps.len() == 0 {
        Resolution { result: Some((Seq::empty(), initial_numbering())), nonce, registry }
    } else {
        let before = resolve_steps(steps.drop_last(), nonce, notebook, registry);
        match before.result {
            None => before,
            Some((done, numbering)) => {
                let last = resolve_step(
                    steps.last(),
                    numbering,
                    before.nonce,
                    notebook,
                    before.registry,
                );
                Resolution {
                    result: match last.result {
                        Some((v, next)) => Some((done.push(v), next)),
                        None => None,
                    },
                    nonce: last.nonce,
                    registry: last.registry,
                }
            },
        }
    }
}

/// The number of messages a step builds: its message list, three times
/// (as messages, wait list and mailbox).
pub open spec fn step_message_count(step: SampleStep) -> nat {
    3 * opt_seq_len(opt_seq(step.messages))
}

/// The length of an optional sequence (none counts as empty).
pub open spec fn opt_seq_len<T>(o: Option<Seq<T>>) -> nat {
    match o {
        Some(v) => v.len(),
        None => 0,
    }
}

/// The number of messages in the message lists of all steps.
pub open spec fn steps_message_count(steps: Seq<SampleStep>) -> nat
    decreases steps.len(),
{
    if steps.len() == 0 {
        0
    } else {
        steps_message_count(steps.drop_last()) + step_message_count(steps.last())
    }
}

/// Resolving an optional list of messages advances the nonce by at most its
/// length.
pub proof fn lemma_resolve_opt_messages_nonce(
    data: Option<Seq<SampleMessage>>,
    nonce: int,
    notebook: Map<Seq<char>, Seq<u8>>,
    registry: Map<u64, Seq<u8>>,
)
    ensures
        nonce <= resolve_opt_messages(data, nonce, notebook, registry).nonce <= nonce + opt_seq_len(
            data,
        ),
        resolve_opt_messages(data, nonce, notebook, registry).result is Some ==> resolve_opt_messages(
            data,
            nonce,
            notebook,
            registry,
        ).nonce == nonce + opt_seq_len(data),
{
    if let Some(v) = data {
        lemma_resolve_messages_nonce(v, nonce, notebook, registry);
    }
}

/// Resolving a step advances the nonce by at most its message count, and
/// by exactly that count when it resolves.
pub proof fn lemma_resolve_step_nonce(
    step: SampleStep,
    numbering: Numbering,
    nonce: int,
    notebook: Map<Seq<char>, Seq<u8>>,
    registry: Map<u64, Seq<u8>>,
)
    ensures
        nonce <= resolve_step(step, numbering, nonce, notebook, registry).nonce <= nonce
            + step_message_count(step),
        resolve_step(step, numbering, nonce, notebook, registry).result is Some ==> resolve_step(
            step,
            numbering,
            nonce,
            notebook,
            registry,
        ).nonce == nonce + step_message_count(step),
{
    let m = resolve_opt_messages(opt_seq(step.messages), nonce, notebook, registry);
    lemma_resolve_opt_messages_nonce(opt_seq(step.messages), nonce, notebook, registry);
    let w = resolve_opt_messages(opt_seq(step.messages), m.nonce, notebook, m.registry);
    lemma_resolve_opt_messages_nonce(opt_seq(step.messages), m.nonce, notebook, m.registry);
    lemma_resolve_opt_messages_nonce(opt_seq(step.messages), w.nonce, notebook, w.registry);
}

/// Resolving steps advances the nonce by at most their message count, and
/// by exactly that count when all steps resolve: each message of the steps
/// draws one identifier.
pub proof fn lemma_resolve_steps_nonce(
    steps: Seq<SampleStep>,
    nonce: int,
    notebook: Map<Seq<char>, Seq<u8>>,
    registry: Map<u64, Seq<u8>>,
)
    ensures
        nonce <= resolve_steps(steps, nonce, notebook, registry).nonce <= nonce
            + steps_message_count(steps),
        resolve_steps(steps, nonce, notebook, registry).result is Some ==> resolve_steps(
            steps,
            nonce,
            notebook,
            registry,
        ).nonce == nonce + steps_message_count(steps),
    decreases steps.len(),
{
    if steps.len() > 0 {
        lemma_resolve_steps_nonce(steps.drop_last(), nonce, notebook, registry);
        let before = resolve_steps(steps.drop_last(), nonce, notebook, registry);
        if let Some((done, numbering)) = before.result {
            lemma_resolve_step_nonce(steps.last(), numbering, before.nonce, notebook, before.registry);
        }
    }
}

/// Resolving a prefix of the steps leaves the nonce no further on than
/// resolving them all.
pub proof fn lemma_resolve_steps_prefix_nonce(
    steps: Seq<SampleStep>,
    k: int,
    nonce: int,
    notebook: Map<Seq<char>, Seq<u8>>,
    registry: Map<u64, Seq<u8>>,
)
    requires
        0 <= k <= steps.len(),
    ensures
        resolve_steps(steps.take(k), nonce, notebook, registry).nonce <= resolve_steps(
            steps,
            nonce,
            notebook,
            registry,
        ).nonce,
    decreases steps.len() - k,
{
    if k < steps.len() {
        let d = steps.drop_last();
        assert(d.take(k) =~= steps.take(k));
        lemma_resolve_steps_prefix_nonce(d, k, nonce, notebook, registry);
        let before = resolve_steps(d, nonce, notebook, registry);
        if let Some((done, numbering)) = before.result {
            lemma_resolve_step_nonce(steps.last(), numbering, before.nonce, notebook, before.registry);
        }
    } else {
        assert(steps.take(k) =~= steps);
    }
}

/// Once resolving a prefix of the steps fails, resolving them all fails with
/// the same nonce and registry.
pub proof fn lemma_resolve_steps_stops(
    steps: Seq<SampleStep>,
    k: int,
    nonce: int,
    notebook: Map<Seq<char>, Seq<u8>>,
    registry: Map<u64, Seq<u8>>,
)
    requires
        0 <= k <= steps.len(),
        resolve_steps(steps.take(k), nonce, notebook, registry).result is None,
    ensures
        resolve_steps(steps, nonce, notebook, registry) == resolve_steps(
            steps.take(k),
            nonce,
            notebook,
            registry,
        ),
    decreases steps.len() - k,
{
    if k < steps.len() {
        let d = steps.drop_last();
        assert(d.take(k) =~= steps.take(k));
        lemma_resolve_steps_stops(d, k, nonce, notebook, registry);
    } else {
        assert(steps.take(k) =~= steps);
    }
}

/// The programs once each init message is given to its destination, in
/// order (a later one for the same program replaces an earlier one); `None`
/// when a destination is not a program.
pub open spec fn apply_inits(
    programs: Map<Seq<u8>, WasmProgramView>,
    inits: Seq<MessageView>,
) -> Option<Map<Seq<u8>, WasmProgramView>>
    decreases inits.len(),
{
    if inits.len() == 0 {
        Some(programs)
    } else {
        match apply_inits(programs, inits.drop_last()) {
            None => None,
            Some(p) => {
                let m = inits.last();
                if p.contains_key(m.dest) {
                    Some(p.insert(m.dest, WasmProgramView { init: Some(m), ..p[m.dest] }))
                } else {
                    None
                }
            },
        }
    }
}

/// A fixture as a value.
pub struct FixtureView {
    pub name: Seq<char>,
    pub messages: Map<u64, Seq<u8>>,
    pub notebook: Map<Seq<char>, Seq<u8>>,
    pub programs: Map<Seq<u8>, WasmProgramView>,
    pub steps: Seq<StepView>,
}

/// Resolving a fixture: its name (or the default), its init messages
/// (identifiers drawn from a nonce that starts at the number of programs,
/// recorded in a registry of their own), given to their programs; every
/// program must then have one. Its steps follow, with the nonce where the
/// init messages left it and a fresh registry, which the fixture keeps.
pub open spec fn resolve_fixture(
    default_name: Seq<char>,
    notebook: Map<Seq<char>, Seq<u8>>,
    programs: Map<Seq<u8>, WasmProgramView>,
    fixture: SampleFixture,
) -> Option<FixtureView> {
    let name = match fixture.name {
        Some(n) => n@,
        None => default_name,
    };
    let i = resolve_opt_messages(
        opt_seq(fixture.inits),
        programs.len() as int,
        notebook,
        Map::empty(),
    );
    match i.result {
        None => None,
        Some(inits) => {
            let p = match inits {
                None => Some(programs),
                Some(v) => apply_inits(programs, v),
            };
            match p {
                None => None,
                Some(p) => if !all_initialized(p) {
                    None
                } else {
                    let s = resolve_steps(fixture.steps@, i.nonce, notebook, Map::empty());
                    match s.result {
                        None => None,
                        Some((steps, _)) => Some(
                            FixtureView { name, messages: s.registry, notebook, programs: p, steps },
                        ),
                    }
                },
            }
        },
    }
}

/// Where resolving a fixture leaves the nonce: after its init messages, and,
/// when every program then has its init message, after its steps.
pub open spec fn fixture_nonce_end(
    notebook: Map<Seq<char>, Seq<u8>>,
    programs: Map<Seq<u8>, WasmProgramView>,
    fixture: SampleFixture,
) -> int {
    let i = resolve_opt_messages(
        opt_seq(fixture.inits),
        programs.len() as int,
        notebook,
        Map::empty(),
    );
    let p = match i.result {
        None => None,
        Some(None) => Some(programs),
        Some(Some(v)) => apply_inits(programs, v),
    };
    match p {
        Some(p) => if all_initialized(p) {
            resolve_steps(fixture.steps@, i.nonce, notebook, Map::empty()).nonce
        } else {
            i.nonce
        },
        None => i.nonce,
    }
}

/// Resolving a fixture starts the nonce at the number of programs, and
/// moves it on no further than where the fixture's resolution ends.
pub proof fn lemma_fixture_nonce_end(
    notebook: Map<Seq<char>, Seq<u8>>,
    programs: Map<Seq<u8>, WasmProgramView>,
    fixture: SampleFixture,
)
    ensures
        ({
            let i = resolve_opt_messages(
                opt_seq(fixture.inits),
                programs.len() as int,
                notebook,
                Map::empty(),
            );
            programs.len() <= i.nonce <= fixture_nonce_end(notebook, programs, fixture)
        }),
{
    let i = resolve_opt_messages(opt_seq(fixture.inits), programs.len() as int, notebook, Map::empty());
    lemma_resolve_opt_messages_nonce(opt_seq(fixture.inits), programs.len() as int, notebook, Map::empty());
    lemma_resolve_steps_nonce(fixture.steps@, i.nonce, notebook, Map::empty());
}

/// Once giving a prefix of the init messages fails, giving them all fails.
pub proof fn lemma_apply_inits_stops(
    programs: Map<Seq<u8>, WasmProgramView>,
    inits: Seq<MessageView>,
    k: int,
)
    requires
        0 <= k <= inits.len(),
        apply_inits(programs, inits.take(k)) is None,
    ensures
        apply_inits(programs, inits) is None,
    decreases inits.len() - k,
{
    if k < inits.len() {
        let d = inits.drop_last();
        assert(d.take(k) =~= inits.take(k));
        lemma_apply_inits_stops(programs, d, k);
    } else {
        assert(inits.take(k) =~= inits);
    }
}

/// The error for a program whose code cannot be loaded.
pub open spec fn load_error(path: Seq<char>) -> Seq<char> {
    "Unable to load program's code: "@ + path
}

/// Where the resolution of actors stands: the notebook, the programs, the
/// nonce and the registry of message numbers.
pub struct ActorsState {
    pub notebook: Map<Seq<char>, Seq<u8>>,
    pub programs: Map<Seq<u8>, WasmProgramView>,
    pub nonce: int,
    pub registry: Map<u64, Seq<u8>>,
}

/// The state before any actor.
pub open spec fn initial_actors_state() -> ActorsState {
    ActorsState { notebook: Map::empty(), programs: Map::empty(), nonce: 0, registry: Map::empty() }
}

/// Resolving one actor, given the code of its binary (`None` when it
/// cannot be loaded). Its keyword (if any) is bound to its address first.
/// A program's init message (if any) is then built with that notebook, and
/// the program is added under its address with its code.
pub open spec fn resolve_actor(actor: Actor, code: Option<Seq<u8>>, st: ActorsState) -> Result<
    ActorsState,
    Seq<char>,
> {
    let id = chain_address_id(actor_address(actor));
    let notebook = match actor_bind(actor) {
        Some(k) => st.notebook.insert(k@, id),
        None => st.notebook,
    };
    match actor {
        Actor::User(_) => Ok(ActorsState { notebook, ..st }),
        Actor::Program(p) => {
            let m = match p.message {
                Some(m) => {
                    let r = resolve_message(m, st.nonce, notebook, st.registry);
                    Resolution {
                        result: match r.result {
                            Some(v) => Some(Some(v)),
                            None => None,
                        },
                        nonce: r.nonce,
                        registry: r.registry,
                    }
                },
                None => Resolution { result: Some(None), nonce: st.nonce, registry: st.registry },
            };
            match m.result {
                None => Err(Seq::empty()),
                Some(init) => match code {
                    None => Err(load_error(p.binary@)),
                    Some(code) => Ok(
                        ActorsState {
                            notebook,
                            programs: st.programs.insert(
                                id,
                                WasmProgramView { path: p.binary@, code, init },
                            ),
                            nonce: m.nonce,
                            registry: m.registry,
                        },
                    ),
                },
            }
        },
    }
}

/// The code given for the actor at index `i`.
pub open spec fn code_at(codes: Seq<Option<Vec<u8>>>, i: int) -> Option<Seq<u8>> {
    if 0 <= i < codes.len() {
        match codes[i] {
            Some(c) => Some(c@),
            None => None,
        }
    } else {
        None
    }
}

/// Resolving the actors in order, stopping at the first error.
pub open spec fn resolve_actors(actors: Seq<Actor>, codes: Seq<Option<Vec<u8>>>) -> Result<
    ActorsState,
    Seq<char>,
>
    decreases actors.len(),
{
    if actors.len() == 0 {
        Ok(initial_actors_state())
    } else {
        match resolve_actors(actors.drop_last(), codes) {
            Err(e) => Err(e),
            Ok(st) => resolve_actor(actors.last(), code_at(codes, actors.len() - 1), st),
        }
    }
}

/// Resolving the actors draws at most one identifier per actor.
pub proof fn lemma_resolve_actors_nonce(actors: Seq<Actor>, codes: Seq<Option<Vec<u8>>>)
    ensures
        resolve_actors(actors, codes) matches Ok(st) ==> 0 <= st.nonce <= actors.len(),
    decreases actors.len(),
{
    if actors.len() > 0 {
        lemma_resolve_actors_nonce(actors.drop_last(), codes);
    }
}

/// Once resolving a prefix of the actors fails, resolving them all fails
/// with the same error.
pub proof fn lemma_resolve_actors_stops(actors: Seq<Actor>, codes: Seq<Option<Vec<u8>>>, k: int)
    requires
        0 <= k <= actors.len(),
        resolve_actors(actors.take(k), codes) is Err,
    ensures
        resolve_actors(actors, codes) == resolve_actors(actors.take(k), codes),
    decreases actors.len() - k,
{
    if k < actors.len() {
        let d = actors.drop_last();
        assert(d.take(k) =~= actors.take(k));
        lemma_resolve_actors_stops(d, codes, k);
    } else {
        assert(actors.take(k) =~= actors);
    }
}

} // verus!
