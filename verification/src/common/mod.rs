//! Resolution of a sample test into programs, fixtures, steps and messages.
pub mod laws;
pub mod model;
pub mod tables;
pub mod types;

use std::collections::BTreeMap;
use vstd::prelude::*;

use crate::ids::{message_id_from_u64, program_id_from_u64, MessageId, ProgramId};
use crate::sample;
use crate::sample::address::Address;
use crate::sample::actor::Actor;
use crate::sample::message::duplicate_messages;
use vstd::string::StringExecFns;

use model::{
    registry_view, resolve_message, resolve_messages, resolve_opt_messages, resolve_step,
    resolve_steps, unsupported_list, Numbering,
};
use types::{message_views, opt_message_views, opt_seq, step_views};
use tables::{Notebook, Programs};
pub use types::{
    Allocation, Memory, Message, Payload, Query, Step, StepNumber, WasmProgram,
};

verus! {

/// Results of this crate: the error is a message.
pub type Result<T> = core::result::Result<T, String>;

/// The source of messages that name none.
const SUPERUSER: u64 = 0;

/// An empty error message.
fn empty_error() -> (e: String)
    ensures
        e@ == Seq::<char>::empty(),
{
    String::new()
}

/// Resolves a program address: a keyword through the notebook (an unbound
/// keyword is an error), a chain address directly.
fn resolve_address(address: Address, notebook: &Notebook) -> (r: Option<ProgramId>)
    ensures
        match model::resolve_address(address, notebook@) {
            Some(id) => r matches Some(p) && p@ == id,
            None => r is None,
        },
{
    match address {
        Address::Bind(keyword) => notebook.get(&keyword),
        Address::ChainAddress(address) => Some(ProgramId::from(address)),
    }
}

/// Builds a message from its sample.
///
/// The message takes the identifier drawn from `nonce`, and the nonce
/// advances by one; a message with its own number is recorded under it in
/// `messages`. Both happen before any check, so they happen also when the
/// message is refused. The source is the superuser when the sample names
/// none; the destination must be named. A keyword must be bound in the
/// notebook. A payload is refused. A reply must name a recorded message; an
/// exit code without a reply is refused. The gas limit defaults to the
/// maximum and the value to zero. Every refusal is an empty error message.
pub fn create_message(
    message: sample::message::Message,
    nonce: &mut u64,
    notebook: &Notebook,
    messages: &mut BTreeMap<u64, MessageId>,
) -> (r: Result<Message>)
    requires
        *old(nonce) < u64::MAX,
    ensures
        ({
            let res = resolve_message(
                message,
                *old(nonce) as int,
                notebook@,
                registry_view(old(messages)@),
            );
            &&& *final(nonce) == res.nonce
            &&& registry_view(final(messages)@) == res.registry
            &&& match res.result {
                Some(v) => r matches Ok(m) && m@ == v,
                None => r matches Err(e) && e@ == Seq::<char>::empty(),
            }
        }),
{
    let id = message_id_from_u64(*nonce);
    *nonce = *nonce + 1;

    if let Some(identifier) = message.id {
        messages.insert(identifier, id);
        proof {
            assert(registry_view(messages@) =~= registry_view(old(messages)@).insert(identifier, id@));
        }
    }

    let source = match message.source {
        Some(address) => match resolve_address(address, notebook) {
            Some(id) => id,
            None => return Err(empty_error()),
        },
        None => program_id_from_u64(SUPERUSER),
    };

    let dest = match message.dest {
        Some(address) => match resolve_address(address, notebook) {
            Some(id) => id,
            None => return Err(empty_error()),
        },
        None => return Err(empty_error()),
    };

    let payload: Payload = match message.payload {
        Some(payload) => create_payload(payload)?,
        None => Vec::new(),
    };

    let gas_limit = match message.gas_limit {
        Some(g) => g,
        None => u64::MAX,
    };
    let value: u128 = match message.value {
        Some(v) => v,
        None => 0,
    };

    let reply = match message.reply_to {
        Some(reply_id) => match messages.get(&reply_id) {
            Some(reply_to) => {
                let code: i32 = match message.exit_code {
                    Some(c) => c,
                    None => 0,
                };
                Some((*reply_to, code))
            },
            None => return Err(empty_error()),
        },
        None => {
            if message.exit_code.is_some() {
                return Err(empty_error());
            }
            None
        },
    };

    let m = Message { id, source, dest, payload, gas_limit, value, reply };
    assert(m@.payload =~= Seq::<u8>::empty());
    Ok(m)
}

/// Whether `f` may succeed on `x`.
pub open spec fn may_succeed<T, R, F: Fn(T) -> Result<R>>(f: F, x: T) -> bool {
    exists|o: R| call_ensures(f, (x,), Ok(o))
}

/// The items that `transform` gives, or its error.
pub open spec fn transform_outcome<R>(r: Result<Option<Vec<R>>>) -> core::result::Result<Seq<R>, String> {
    match r {
        Ok(Some(out)) => Ok(out@),
        Ok(None) => Ok(Seq::empty()),
        Err(e) => Err(e),
    }
}

/// Applies `f` to each item of an optional list, stopping at the first
/// error. No list gives no list.
pub fn transform<T, R, F: Fn(T) -> Result<R>>(input: Option<Vec<T>>, f: &F) -> (r: Result<
    Option<Vec<R>>,
>)
    requires
        input matches Some(v) ==> forall|i: int| 0 <= i < v.len() ==> call_requires(*f, (v[i],)),
    ensures
        input is None ==> r matches Ok(None),
        input matches Some(v) ==> match r {
            Ok(Some(out)) => out.len() == v.len() && forall|i: int|
                0 <= i < v.len() ==> call_ensures(*f, (v[i],), Ok(#[trigger] out[i])),
            Ok(None) => false,
            Err(e) => exists|k: int|
                #![trigger v[k]]
                0 <= k < v.len() && call_ensures(*f, (v[k],), Err(e)) && forall|j: int|
                    0 <= j < k ==> may_succeed::<T, R, F>(*f, #[trigger] v[j]),
        },
        input matches Some(v) ==> (model::deterministic::<T, R, F>(*f) ==> transform_outcome(r)
            == model::transform_seq::<T, R, F>(*f, v@)),
{
    let ghost inp = input;
    match input {
        Some(dataset) => {
            let total = dataset.len();
            let ghost data = dataset@;
            assert(inp matches Some(x) && x@ == data);
            let mut rest = dataset;
            let mut v: Vec<R> = Vec::new();
            let mut i: usize = 0;
            while rest.len() > 0
                invariant
                    rest@ == data.skip(i as int),
                    i <= data.len(),
                    inp matches Some(x) && x@ == data,
                    inp == input,
                    data.len() == total,
                    v.len() == i,
                    forall|j: int| 0 <= j < data.len() ==> call_requires(*f, (data[j],)),
                    forall|j: int| 0 <= j < i ==> call_ensures(*f, (data[j],), Ok(#[trigger] v[j])),
                    model::deterministic::<T, R, F>(*f) ==> model::transform_seq::<T, R, F>(*f, data.take(i as int)) == Ok::<Seq<R>, String>(v@),
                decreases rest.len(),
            {
                let item = rest.remove(0);
                assert(item == data[i as int]);
                let ghost prefix = data.take(i + 1);
                assert(prefix.drop_last() =~= data.take(i as int));
                assert(prefix.last() == item);
                let res = f(item);
                proof {
                    if model::deterministic::<T, R, F>(*f) {
                        assert(call_ensures(*f, (data[i as int],), res));
                        assert(model::applied::<T, R, F>(*f, data[i as int]) == res);
                    }
                }
                match res {
                    Ok(x) => {
                        let ghost before = v@;
                        v.push(x);
                        assert(v@ =~= before.push(x));
                    },
                    Err(e) => {
                        proof {
                            let k = i as int;
                            let vin = inp->0;
                            assert forall|j: int| 0 <= j < k implies may_succeed::<T, R, F>(*f, #[trigger] vin[j]) by {
                                assert(call_ensures(*f, (data[j],), Ok(v[j])));
                            }
                            assert(call_ensures(*f, (vin[k],), Err(e)));
                            if model::deterministic::<T, R, F>(*f) {
                                model::lemma_transform_seq_stops::<T, R, F>(*f, data, i + 1);
                            }
                        }
                        return Err(e);
                    },
                }
                i = i + 1;
                assert(rest@ =~= data.skip(i as int));
            }
            assert(data.take(i as int) =~= data);
            Ok(Some(v))
        },
        None => Ok(None),
    }
}

/// Builds each message of an optional list in turn (see `create_message`),
/// stopping at the first refusal. No list gives no list. Each message that
/// is reached draws the next identifier from `nonce`.
pub fn transform_messages(
    input: Option<Vec<sample::message::Message>>,
    nonce: &mut u64,
    notebook: &Notebook,
    messages: &mut BTreeMap<u64, MessageId>,
) -> (r: Result<Option<Vec<Message>>>)
    requires
        resolve_opt_messages(
            opt_seq(input),
            *old(nonce) as int,
            notebook@,
            registry_view(old(messages)@),
        ).nonce <= u64::MAX,
    ensures
        ({
            let res = resolve_opt_messages(
                opt_seq(input),
                *old(nonce) as int,
                notebook@,
                registry_view(old(messages)@),
            );
            &&& *final(nonce) == res.nonce
            &&& registry_view(final(messages)@) == res.registry
            &&& match res.result {
                Some(o) => r matches Ok(x) && opt_message_views(x) == o,
                None => r matches Err(e) && e@ == Seq::<char>::empty(),
            }
        }),
{
    let ghost inp = input;
    match input {
        Some(dataset) => {
            let total = dataset.len();
            let ghost data = dataset@;
            let ghost n0 = *nonce as int;
            let ghost reg0 = registry_view(messages@);
            let mut rest = dataset;
            let mut v: Vec<Message> = Vec::new();
            let mut i: usize = 0;
            assert(data.take(0) =~= Seq::<sample::message::Message>::empty());
            while rest.len() > 0
                invariant
                    rest@ == data.skip(i as int),
                    i <= data.len(),
                    resolve_messages(data, n0, notebook@, reg0).nonce <= u64::MAX,
                    ({
                        let res = resolve_messages(data.take(i as int), n0, notebook@, reg0);
                        &&& res.result == Some(message_views(v@))
                        &&& res.nonce == *nonce
                        &&& res.registry == registry_view(messages@)
                    }),
                    *nonce == n0 + i,
                    inp == input,
                    inp matches Some(x) && x@ == data,
                    data.len() == total,
                    n0 == *old(nonce),
                    reg0 == registry_view(old(messages)@),
                decreases rest.len(),
            {
                let item = rest.remove(0);
                assert(item == data[i as int]);
                assert(data.take(i + 1).drop_last() =~= data.take(i as int));
                assert(data.take(i + 1).last() == data[i as int]);
                proof {
                    model::lemma_resolve_messages_prefix_nonce(data, i + 1, n0, notebook@, reg0);
                }
                let res = create_message(item, nonce, notebook, messages);
                match res {
                    Ok(x) => {
                        let ghost before = v@;
                        let ghost xv = x@;
                        v.push(x);
                        assert(message_views(v@) =~= message_views(before).push(xv));
                    },
                    Err(e) => {
                        proof {
                            model::lemma_resolve_messages_stops(data, i + 1, n0, notebook@, reg0);
                        }
                        return Err(e);
                    },
                }
                i = i + 1;
                assert(rest@ =~= data.skip(i as int));
            }
            assert(data.take(i as int) =~= data);
            Ok(Some(v))
        },
        None => Ok(None),
    }
}

/// Builds the expectations of a list with a constructor that refuses every
/// item: an empty list stays empty, no list stays none, and any item is
/// refused.
proof fn lemma_unsupported_transform<T, R, F: Fn(T) -> Result<R>>(
    input: Option<Vec<T>>,
    f: F,
    r: Result<Option<Vec<R>>>,
)
    requires
        forall|x: T, o: Result<R>| call_ensures(f, (x,), o) ==> (o matches Err(e) && e@ == Seq::<char>::empty()),
        input is None ==> r matches Ok(None),
        input matches Some(v) ==> match r {
            Ok(Some(out)) => out.len() == v.len() && forall|i: int|
                0 <= i < v.len() ==> call_ensures(f, (v[i],), Ok(#[trigger] out[i])),
            Ok(None) => false,
            Err(e) => exists|k: int|
                #![trigger v[k]]
                0 <= k < v.len() && call_ensures(f, (v[k],), Err(e)),
        },
    ensures
        match unsupported_list::<T, R>(opt_seq(input)) {
            Some(o) => r matches Ok(x) && opt_seq(x) == o,
            None => r matches Err(e) && e@ == Seq::<char>::empty(),
        },
{
    if let Some(v) = input {
        if let Ok(Some(out)) = r {
            if v.len() > 0 {
                assert(call_ensures(f, (v[0],), Ok(out[0])));
            }
            assert(out@ =~= Seq::<R>::empty());
        }
    }
}

/// Builds one step. A step after the final step is refused; a numbered
/// step must not go below the last number, and sets it; an unnumbered step
/// is the final one. Then its messages, memory, allocations, wait list,
/// query and mailbox are built in that order (see `create_message`,
/// `transform_messages`), stopping at the first refusal. The wait list and
/// the mailbox are built from the step's message list, as the messages are.
fn create_step(
    step: sample::step::Step,
    current: &mut u8,
    found_final: &mut bool,
    nonce: &mut u64,
    notebook: &Notebook,
    msgs: &mut BTreeMap<u64, MessageId>,
) -> (r: Result<Step>)
    requires
        resolve_step(
            step,
            Numbering { current: *old(current), found_final: *old(found_final) },
            *old(nonce) as int,
            notebook@,
            registry_view(old(msgs)@),
        ).nonce <= u64::MAX,
    ensures
        ({
            let res = resolve_step(
                step,
                Numbering { current: *old(current), found_final: *old(found_final) },
                *old(nonce) as int,
                notebook@,
                registry_view(old(msgs)@),
            );
            &&& *final(nonce) == res.nonce
            &&& registry_view(final(msgs)@) == res.registry
            &&& match res.result {
                Some((v, next)) => r matches Ok(s) && s@ == v && *final(current) == next.current
                    && *final(found_final) == next.found_final,
                None => r matches Err(e) && e@ == Seq::<char>::empty(),
            }
        }),
{
    let ghost n0 = *nonce as int;
    let ghost reg0 = registry_view(msgs@);
    let ghost end = resolve_step(
        step,
        Numbering { current: *current, found_final: *found_final },
        n0,
        notebook@,
        reg0,
    ).nonce;
    if *found_final {
        return Err(empty_error());
    }
    match step.number {
        Some(num) => {
            if num < *current {
                return Err(empty_error());
            }
            *current = num;
        },
        None => {
            *found_final = true;
        },
    }
    let number = if *found_final {
        StepNumber::Final
    } else {
        StepNumber::Ordered(*current)
    };
    let immortal = match step.immortal {
        Some(b) => b,
        None => false,
    };

    let step_messages = step.messages;
    let waitlist_input = duplicate_messages(&step_messages);
    let mailbox_input = duplicate_messages(&step_messages);

    let ghost m = resolve_opt_messages(opt_seq(step.messages), n0, notebook@, reg0);
    let ghost w = resolve_opt_messages(opt_seq(step.messages), m.nonce, notebook@, m.registry);
    let ghost b = resolve_opt_messages(opt_seq(step.messages), w.nonce, notebook@, w.registry);
    proof {
        model::lemma_resolve_opt_messages_nonce(opt_seq(step.messages), n0, notebook@, reg0);
        model::lemma_resolve_opt_messages_nonce(opt_seq(step.messages), m.nonce, notebook@, m.registry);
        model::lemma_resolve_opt_messages_nonce(opt_seq(step.messages), w.nonce, notebook@, w.registry);
        assert(m.nonce <= end);
    }
    let messages = transform_messages(step_messages, nonce, notebook, msgs)?;

    let memory_r = transform(step.memory, &create_memory);
    proof {
        lemma_unsupported_transform(step.memory, create_memory, memory_r);
    }
    let memory = memory_r?;

    let allocations_r = transform(step.allocations, &create_allocation);
    proof {
        lemma_unsupported_transform(step.allocations, create_allocation, allocations_r);
    }
    let allocations = allocations_r?;

    proof {
        assert(w.nonce <= end);
        model::lemma_resolve_opt_messages_copy(opt_seq(step.messages), opt_seq(waitlist_input), m.nonce, notebook@, m.registry);
    }
    let waitlist = transform_messages(waitlist_input, nonce, notebook, msgs)?;

    let query_r = transform(step.query, &create_query);
    proof {
        lemma_unsupported_transform(step.query, create_query, query_r);
    }
    let query = query_r?;

    proof {
        assert(b.nonce <= end);
        model::lemma_resolve_opt_messages_copy(opt_seq(step.messages), opt_seq(mailbox_input), w.nonce, notebook@, w.registry);
    }
    let mailbox = transform_messages(mailbox_input, nonce, notebook, msgs)?;

    Ok(Step { number, immortal, messages, memory, allocations, waitlist, query, mailbox })
}

/// Builds the steps of a fixture in order (see `create_step`), stopping at
/// the first refusal. Numbered steps must come in non-decreasing order, and
/// only the last step may be unnumbered (it is the final step).
pub fn create_steps(
    steps: Vec<sample::step::Step>,
    nonce: &mut u64,
    notebook: &Notebook,
    msgs: &mut BTreeMap<u64, MessageId>,
) -> (r: Result<Vec<Step>>)
    requires
        resolve_steps(steps@, *old(nonce) as int, notebook@, registry_view(old(msgs)@)).nonce
            <= u64::MAX,
    ensures
        ({
            let res = resolve_steps(
                steps@,
                *old(nonce) as int,
                notebook@,
                registry_view(old(msgs)@),
            );
            &&& *final(nonce) == res.nonce
            &&& registry_view(final(msgs)@) == res.registry
            &&& match res.result {
                Some((v, _)) => r matches Ok(out) && step_views(out@) == v,
                None => r matches Err(e) && e@ == Seq::<char>::empty(),
            }
        }),
{
    let ghost data = steps@;
    let ghost n0 = *nonce as int;
    let ghost reg0 = registry_view(msgs@);
    let total = steps.len();
    let mut current: u8 = 0;
    let mut found_final = false;
    let mut v: Vec<Step> = Vec::new();
    let mut rest = steps;
    let mut i: usize = 0;
    assert(data.take(0) =~= Seq::<sample::step::Step>::empty());
    while rest.len() > 0
        invariant
            rest@ == data.skip(i as int),
            i <= data.len(),
            data.len() == total,
            data == steps@,
            resolve_steps(data, n0, notebook@, reg0).nonce <= u64::MAX,
            n0 == *old(nonce),
            reg0 == registry_view(old(msgs)@),
            ({
                let res = resolve_steps(data.take(i as int), n0, notebook@, reg0);
                &&& res.result == Some(
                    (step_views(v@), Numbering { current, found_final }),
                )
                &&& res.nonce == *nonce
                &&& res.registry == registry_view(msgs@)
            }),
        decreases rest.len(),
    {
        let step = rest.remove(0);
        assert(step == data[i as int]);
        let ghost prefix = data.take(i + 1);
        assert(prefix.drop_last() =~= data.take(i as int));
        assert(prefix.last() == data[i as int]);
        proof {
            model::lemma_resolve_steps_prefix_nonce(data, i + 1, n0, notebook@, reg0);
        }
        let res = create_step(step, &mut current, &mut found_final, nonce, notebook, msgs);
        match res {
            Ok(x) => {
                let ghost before = v@;
                let ghost xv = x@;
                v.push(x);
                assert(step_views(v@) =~= step_views(before).push(xv));
            },
            Err(e) => {
                proof {
                    model::lemma_resolve_steps_stops(data, i + 1, n0, notebook@, reg0);
                }
                return Err(e);
            },
        }
        i = i + 1;
        assert(rest@ =~= data.skip(i as int));
    }
    assert(data.take(i as int) =~= data);
    Ok(v)
}

/// A fixture ready to run: its name, the registry of message numbers its
/// steps recorded, the notebook, the programs with their init messages, and
/// the steps.
#[derive(Debug)]
pub struct Fixture {
    pub name: String,
    pub messages: BTreeMap<u64, MessageId>,
    pub notebook: Notebook,
    pub programs: Programs,
    pub steps: Vec<Step>,
}

impl View for Fixture {
    type V = model::FixtureView;

    open spec fn view(&self) -> model::FixtureView {
        model::FixtureView {
            name: self.name@,
            messages: registry_view(self.messages@),
            notebook: self.notebook@,
            programs: self.programs@,
            steps: step_views(self.steps@),
        }
    }
}

/// Builds a fixture: its name (`default_name` when the sample gives none);
/// its init messages, numbered from the count of programs on and each given
/// to the program it is sent to (a message to another address is refused);
/// every program must then have an init message. The steps follow (see
/// `create_steps`), continuing the numbering, with a fresh registry of
/// message numbers that the fixture keeps.
pub fn create_fixture(
    default_name: String,
    notebook: Notebook,
    programs: Programs,
    fixture: sample::fixture::Fixture,
) -> (r: Result<Fixture>)
    requires
        model::fixture_nonce_end(notebook@, programs@, fixture) <= u64::MAX,
    ensures
        match model::resolve_fixture(default_name@, notebook@, programs@, fixture) {
            Some(v) => r matches Ok(f) && f@ == v,
            None => r matches Err(e) && e@ == Seq::<char>::empty(),
        },
{
    let mut programs = programs;
    let ghost p0 = programs@;
    let name = match fixture.name {
        Some(n) => n,
        None => default_name,
    };
    proof {
        model::lemma_fixture_nonce_end(notebook@, p0, fixture);
    }
    let mut nonce = programs.len() as u64;
    let mut messages: BTreeMap<u64, MessageId> = BTreeMap::new();
    assert(registry_view(messages@) =~= Map::<u64, Seq<u8>>::empty());

    let ghost i_res = resolve_opt_messages(opt_seq(fixture.inits), p0.len() as int, notebook@, Map::empty());
    proof {
        model::lemma_resolve_opt_messages_nonce(opt_seq(fixture.inits), p0.len() as int, notebook@, Map::empty());
    }
    let inits = transform_messages(fixture.inits, &mut nonce, &notebook, &mut messages)?;
    if let Some(inits) = inits {
        let ghost views = message_views(inits@);
        let total = inits.len();
        let mut rest = inits;
        let mut i: usize = 0;
        assert(views.take(0) =~= Seq::<types::MessageView>::empty());
        #[verifier::loop_isolation(false)]
        while rest.len() > 0
            invariant
                message_views(rest@) == views.skip(i as int),
                i <= views.len(),
                model::apply_inits(p0, views.take(i as int)) == Some(programs@),
                views.len() == total,
            decreases rest.len(),
        {
            let ghost before = rest@;
            assert(message_views(before).len() == before.len());
            assert(i < views.len());
            let init = rest.remove(0);
            assert(init == before[0]);
            assert(message_views(before)[0] == before[0]@);
            assert(views.skip(i as int)[0] == message_views(before)[0]);
            let ghost iv = init@;
            assert(iv == views[i as int]);
            let ghost prefix = views.take(i + 1);
            assert(prefix.drop_last() =~= views.take(i as int));
            assert(prefix.last() == iv);
            let dest = init.dest;
            if !programs.set_init(&dest, init) {
                proof {
                    model::lemma_apply_inits_stops(p0, views, i + 1);
                }
                return Err(empty_error());
            }
            i = i + 1;
            assert(rest@ =~= before.drop_first());
            assert forall|j: int| 0 <= j < rest@.len() implies message_views(rest@)[j] == views.skip(i as int)[j] by {
                assert(rest@[j] == before[j + 1]);
                assert(message_views(before)[j + 1] == before[j + 1]@);
                assert(views.skip(i - 1)[j + 1] == views[i + j]);
            }
            assert(message_views(rest@) =~= views.skip(i as int));
        }
        assert(views.take(i as int) =~= views);
    }

    if !programs.all_initialized() {
        return Err(empty_error());
    }

    let mut messages: BTreeMap<u64, MessageId> = BTreeMap::new();
    assert(registry_view(messages@) =~= Map::<u64, Seq<u8>>::empty());
    let steps = create_steps(fixture.steps, &mut nonce, &notebook, &mut messages)?;

    Ok(Fixture { name, messages, notebook, programs, steps })
}

/// The error for a program whose code cannot be loaded.
pub fn code_load_error(binary: &String) -> (e: String)
    ensures
        e@ == model::load_error(binary@),
{
    let mut e = String::from_str("Unable to load program's code: ");
    e.append(binary.as_str());
    e
}

impl WasmProgram {
    /// A program from the path of its binary, the code read from there
    /// (`None` when it could not be read, which is an error), and its init
    /// message.
    pub fn new(path: String, code: Option<Vec<u8>>, init: Option<Message>) -> (r: Result<Self>)
        ensures
            match code {
                Some(c) => r matches Ok(p) && p@ == (types::WasmProgramView {
                    path: path@,
                    code: c@,
                    init: types::opt_message_view(init),
                }),
                None => r matches Err(e) && e@ == model::load_error(path@),
            },
    {
        match code {
            Some(code) => Ok(WasmProgram { path, code, init }),
            None => Err(code_load_error(&path)),
        }
    }
}

/// A test ready to run: title, purpose and description, the notebook of
/// keywords, the programs, and the fixtures.
#[derive(Debug)]
pub struct Test {
    pub title: String,
    pub purpose: String,
    pub description: String,
    pub notebook: Notebook,
    pub programs: Programs,
    pub fixtures: Vec<Fixture>,
}

/// The text that stands for a purpose or description a test does not give.
pub open spec fn undefined_text() -> Seq<char> {
    "Undefined"@
}

/// An optional text, or the undefined text.
pub open spec fn text_or_undefined(t: Option<String>) -> Seq<char> {
    match t {
        Some(s) => s@,
        None => undefined_text(),
    }
}

fn or_undefined(t: Option<String>) -> (r: String)
    ensures
        r@ == text_or_undefined(t),
{
    match t {
        Some(s) => s,
        None => String::from_str("Undefined"),
    }
}

/// Builds a test from its sample and the code of each actor's binary
/// (`codes[i]` for `test.actors[i]`; missing or `None` when it could not be
/// read). Each actor's keyword, if any, is bound in the notebook to its
/// address; each program's init message, if any, is built (see
/// `create_message`, numbered from zero) and the program is added with its
/// code; a program without code is refused with `code_load_error`. The
/// purpose and the description default to "Undefined". No fixture is built
/// here: `create_fixture` builds one from the notebook and programs.
pub fn create_test(test: sample::test::Test, codes: Vec<Option<Vec<u8>>>) -> (r: Result<Test>)
    ensures
        match model::resolve_actors(test.actors@, codes@) {
            Ok(st) => r matches Ok(t) && t.title@ == test.title@ && t.purpose@ == text_or_undefined(
                test.purpose,
            ) && t.description@ == text_or_undefined(test.description) && t.notebook@
                == st.notebook && t.programs@ == st.programs && t.fixtures@.len() == 0,
            Err(e) => r matches Err(e2) && e2@ == e,
        },
{
    let ghost actors = test.actors@;
    let ghost all_codes = codes@;
    let mut notebook = Notebook::new();
    let mut messages: BTreeMap<u64, MessageId> = BTreeMap::new();
    let mut programs = Programs::new();
    let mut nonce: u64 = 0;
    assert(registry_view(messages@) =~= Map::<u64, Seq<u8>>::empty());

    let total = test.actors.len();
    let mut rest = test.actors;
    let mut rest_codes = codes;
    let mut i: usize = 0;
    assert(actors.take(0) =~= Seq::<Actor>::empty());
    while rest.len() > 0
        invariant
            rest@ == actors.skip(i as int),
            i <= actors.len(),
            actors.len() == total,
            actors == test.actors@,
            all_codes == codes@,
            rest_codes@.len() == if i <= all_codes.len() { all_codes.len() - i } else { 0 },
            forall|j: int| 0 <= j < rest_codes@.len() ==> #[trigger] rest_codes@[j] == all_codes[i + j],
            resolve_actors_ok(actors.take(i as int), all_codes, notebook@, programs@, nonce as int, registry_view(messages@)),
        decreases rest.len(),
    {
        let actor = rest.remove(0);
        assert(actor == actors[i as int]);
        let code = if rest_codes.len() > 0 {
            rest_codes.remove(0)
        } else {
            None
        };
        proof {
            let prefix = actors.take(i + 1);
            assert(prefix.drop_last() =~= actors.take(i as int));
            assert(prefix.last() == actor);
            model::lemma_resolve_actors_nonce(actors.take(i as int), all_codes);
            if i < all_codes.len() {
                assert(code == all_codes[i as int]);
            }
        }
        let ghost code_v = model::code_at(all_codes, i as int);
        assert(match code { Some(c) => code_v == Some(c@), None => code_v is None });

        let (keyword, address) = actor.get_bind();
        let address: ProgramId = ProgramId::from(address);
        if let Some(v) = keyword {
            notebook.insert(v, address);
        }

        if let Actor::Program(program) = actor {
            let message = match program.message {
                Some(message) => match create_message(message, &mut nonce, &notebook, &mut messages) {
                    Ok(m) => Some(m),
                    Err(e) => {
                        proof {
                            model::lemma_resolve_actors_stops(actors, all_codes, i + 1);
                        }
                        return Err(e);
                    },
                },
                None => None,
            };
            let wasm = match WasmProgram::new(program.binary, code, message) {
                Ok(w) => w,
                Err(e) => {
                    proof {
                        model::lemma_resolve_actors_stops(actors, all_codes, i + 1);
                    }
                    return Err(e);
                },
            };
            programs.insert(address, wasm);
        }
        i = i + 1;
        assert(rest@ =~= actors.skip(i as int));
    }
    assert(actors.take(i as int) =~= actors);

    let fixtures: Vec<Fixture> = Vec::new();

    Ok(
        Test {
            title: test.title,
            purpose: or_undefined(test.purpose),
            description: or_undefined(test.description),
            notebook,
            programs,
            fixtures,
        },
    )
}

/// Resolving the actors succeeds with the given state.
pub open spec fn resolve_actors_ok(
    actors: Seq<Actor>,
    codes: Seq<Option<Vec<u8>>>,
    notebook: Map<Seq<char>, Seq<u8>>,
    programs: Map<Seq<u8>, types::WasmProgramView>,
    nonce: int,
    registry: Map<u64, Seq<u8>>,
) -> bool {
    model::resolve_actors(actors, codes) == Ok::<model::ActorsState, Seq<char>>(
        model::ActorsState { notebook, programs, nonce, registry },
    )
}

/// Memory expectations are not supported: every one is refused with an
/// empty error message.
pub fn create_memory(_memory: sample::memory::Memory) -> (r: Result<Memory>)
    ensures
        r matches Err(e) && e@ == Seq::<char>::empty(),
{
    Err(empty_error())
}

/// Allocation expectations are not supported: every one is refused with an
/// empty error message.
pub fn create_allocation(_allocation: sample::allocation::Allocation) -> (r: Result<Allocation>)
    ensures
        r matches Err(e) && e@ == Seq::<char>::empty(),
{
    Err(empty_error())
}

/// Payloads are not supported: every one is refused with an empty error
/// message.
pub fn create_payload(_payload: sample::payload::PayloadInput) -> (r: Result<Payload>)
    ensures
        r matches Err(e) && e@ == Seq::<char>::empty(),
{
    Err(empty_error())
}

/// Queries are not supported: every one is refused with an empty error
/// message.
pub fn create_query(_query: sample::query::Query) -> (r: Result<Query>)
    ensures
        r matches Err(e) && e@ == Seq::<char>::empty(),
{
    Err(empty_error())
}

} // verus!
