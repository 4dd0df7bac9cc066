//! What resolution keeps: identifiers are drawn in order and never twice,
//! step numbers never go down and only the last step is final, and a
//! fixture's programs are the same programs, each with its init message.
use vstd::prelude::*;

use crate::ids::{id_bytes_of_u64, lemma_id_bytes_of_u64_injective};
use crate::sample::message::Message as SampleMessage;
use crate::sample::step::Step as SampleStep;
use crate::sample::fixture::Fixture as SampleFixture;
use crate::sample::actor::{actor_address, Actor};
use crate::sample::address::chain_address_id;

use super::model::{
    applied, transform_seq, apply_inits, resolve_actors, opt_seq_len, resolve_fixture, resolve_messages, resolve_opt_messages,
    resolve_step, resolve_steps, step_message_count, step_number, steps_message_count, Numbering,
};
use super::tables::all_initialized;
use super::types::{opt_seq, MessageView, StepNumber, StepView, WasmProgramView};

verus! {

/// When a list of messages resolves, the `i`-th message has the identifier
/// drawn from `nonce + i`, and the nonce ends `data.len()` further on.
pub proof fn lemma_messages_numbered_in_order(
    data: Seq<SampleMessage>,
    nonce: int,
    notebook: Map<Seq<char>, Seq<u8>>,
    registry: Map<u64, Seq<u8>>,
)
    requires
        resolve_messages(data, nonce, notebook, registry).result is Some,
    ensures
        ({
            let res = resolve_messages(data, nonce, notebook, registry);
            let v = res.result->0;
            &&& v.len() == data.len()
            &&& res.nonce == nonce + data.len()
            &&& forall|i: int| 0 <= i < v.len() ==> #[trigger] v[i].id == id_bytes_of_u64((nonce + i) as u64)
        }),
    decreases data.len(),
{
    if data.len() > 0 {
        lemma_messages_numbered_in_order(data.drop_last(), nonce, notebook, registry);
        let before = resolve_messages(data.drop_last(), nonce, notebook, registry);
        let v = resolve_messages(data, nonce, notebook, registry).result->0;
        assert forall|i: int| 0 <= i < v.len() implies #[trigger] v[i].id == id_bytes_of_u64((nonce + i) as u64) by {
            if i < v.len() - 1 {
                assert(v[i] == before.result->0[i]);
            }
        }
    }
}

/// When a list of messages resolves without the nonce leaving the range of
/// `u64`, no two of its messages share an identifier.
pub proof fn lemma_message_ids_distinct(
    data: Seq<SampleMessage>,
    nonce: int,
    notebook: Map<Seq<char>, Seq<u8>>,
    registry: Map<u64, Seq<u8>>,
)
    requires
        resolve_messages(data, nonce, notebook, registry).result is Some,
        0 <= nonce,
        nonce + data.len() <= u64::MAX + 1,
    ensures
        ({
            let v = resolve_messages(data, nonce, notebook, registry).result->0;
            forall|i: int, j: int| 0 <= i < j < v.len() ==> #[trigger] v[i].id != #[trigger] v[j].id
        }),
{
    lemma_messages_numbered_in_order(data, nonce, notebook, registry);
    let v = resolve_messages(data, nonce, notebook, registry).result->0;
    assert forall|i: int, j: int| 0 <= i < j < v.len() implies #[trigger] v[i].id != #[trigger] v[j].id by {
        if v[i].id == v[j].id {
            lemma_id_bytes_of_u64_injective((nonce + i) as u64, (nonce + j) as u64);
        }
    }
}

/// A step that resolves takes the number its numbering gives it.
pub proof fn lemma_step_takes_its_number(
    step: SampleStep,
    numbering: Numbering,
    nonce: int,
    notebook: Map<Seq<char>, Seq<u8>>,
    registry: Map<u64, Seq<u8>>,
)
    requires
        resolve_step(step, numbering, nonce, notebook, registry).result is Some,
    ensures
        ({
            let (v, next) = resolve_step(step, numbering, nonce, notebook, registry).result->0;
            step_number(step, numbering) == Some((v.number, next))
        }),
{
}

/// When steps resolve: a step is final exactly when it has no number, and
/// then it is the last step; a numbered step keeps its number; and numbers
/// never go down along the steps.
pub proof fn lemma_steps_numbered(
    steps: Seq<SampleStep>,
    nonce: int,
    notebook: Map<Seq<char>, Seq<u8>>,
    registry: Map<u64, Seq<u8>>,
)
    requires
        resolve_steps(steps, nonce, notebook, registry).result is Some,
    ensures
        ({
            let (v, numbering) = resolve_steps(steps, nonce, notebook, registry).result->0;
            &&& v.len() == steps.len()
            &&& forall|i: int| 0 <= i < v.len() ==> ((#[trigger] v[i].number is Final) <==> steps[i].number is None)
            &&& forall|i: int| 0 <= i < v.len() ==> (steps[i].number matches Some(n) ==> #[trigger] v[i].number == StepNumber::Ordered(n))
            &&& forall|i: int| 0 <= i < v.len() && #[trigger] v[i].number is Final ==> i == v.len() - 1
            &&& forall|i: int, j: int| 0 <= i < j < v.len() ==> (#[trigger] v[i].number matches StepNumber::Ordered(a) ==> (#[trigger] v[j].number matches StepNumber::Ordered(b) ==> a <= b))
            &&& forall|i: int| 0 <= i < v.len() ==> (#[trigger] v[i].number matches StepNumber::Ordered(a) ==> a <= numbering.current)
            &&& numbering.found_final <==> exists|i: int| 0 <= i < v.len() && #[trigger] v[i].number is Final
        }),
    decreases steps.len(),
{
    if steps.len() > 0 {
        let d = steps.drop_last();
        lemma_steps_numbered(d, nonce, notebook, registry);
        let before = resolve_steps(d, nonce, notebook, registry);
        let (done, numbering) = before.result->0;
        lemma_step_takes_its_number(steps.last(), numbering, before.nonce, notebook, before.registry);
        let (v, n2) = resolve_steps(steps, nonce, notebook, registry).result->0;
        let last = v[v.len() - 1];
        assert(v == done.push(last));
        assert forall|i: int| 0 <= i < v.len() - 1 implies v[i] == done[i] && steps[i] == d[i] by {}
        assert(!numbering.found_final);
        assert forall|i: int| 0 <= i < v.len() && #[trigger] v[i].number is Final implies i == v.len() - 1 by {
            if i < v.len() - 1 {
                assert(done[i].number is Final);
            }
        }
        assert forall|i: int| 0 <= i < v.len() implies (#[trigger] v[i].number matches StepNumber::Ordered(a) ==> a <= n2.current) by {
            if i < v.len() - 1 {
                assert(v[i] == done[i]);
            }
        }
        assert forall|i: int, j: int| 0 <= i < j < v.len() implies (#[trigger] v[i].number matches StepNumber::Ordered(a) ==> (#[trigger] v[j].number matches StepNumber::Ordered(b) ==> a <= b)) by {
            if j < v.len() - 1 {
                assert(v[i] == done[i] && v[j] == done[j]);
            } else {
                assert(v[i] == done[i]);
            }
        }
        if n2.found_final {
            assert(v[v.len() - 1].number is Final);
        }
        if exists|i: int| 0 <= i < v.len() && #[trigger] v[i].number is Final {
            let i = choose|i: int| 0 <= i < v.len() && #[trigger] v[i].number is Final;
            if i < v.len() - 1 {
                assert(done[i].number is Final);
            }
        }
    }
}

/// Giving init messages to programs keeps the same programs.
pub proof fn lemma_apply_inits_same_programs(
    programs: Map<Seq<u8>, WasmProgramView>,
    inits: Seq<MessageView>,
)
    requires
        apply_inits(programs, inits) is Some,
    ensures
        apply_inits(programs, inits)->0.dom() == programs.dom(),
    decreases inits.len(),
{
    if inits.len() > 0 {
        lemma_apply_inits_same_programs(programs, inits.drop_last());
        let p = apply_inits(programs, inits.drop_last())->0;
        assert(apply_inits(programs, inits)->0.dom() =~= p.dom());
    }
}

/// A fixture that resolves has the same programs as it was given, each
/// with an init message, and keeps the notebook.
pub proof fn lemma_fixture_programs_initialized(
    default_name: Seq<char>,
    notebook: Map<Seq<char>, Seq<u8>>,
    programs: Map<Seq<u8>, WasmProgramView>,
    fixture: SampleFixture,
)
    requires
        resolve_fixture(default_name, notebook, programs, fixture) is Some,
    ensures
        ({
            let f = resolve_fixture(default_name, notebook, programs, fixture)->0;
            &&& f.programs.dom() == programs.dom()
            &&& all_initialized(f.programs)
            &&& f.notebook == notebook
        }),
{
    let i = super::model::resolve_opt_messages(
        super::types::opt_seq(fixture.inits),
        programs.len() as int,
        notebook,
        Map::empty(),
    );
    if let Some(Some(v)) = i.result {
        lemma_apply_inits_same_programs(programs, v);
    }
}

/// The messages of an optional list (none counts as empty).
pub open spec fn opt_views(o: Option<Seq<MessageView>>) -> Seq<MessageView> {
    match o {
        Some(v) => v,
        None => Seq::empty(),
    }
}

/// The messages of a step: its messages, wait list and mailbox, in order.
pub open spec fn step_message_views(s: StepView) -> Seq<MessageView> {
    opt_views(s.messages) + opt_views(s.waitlist) + opt_views(s.mailbox)
}

/// The messages of the steps, step after step.
pub open spec fn steps_message_views(v: Seq<StepView>) -> Seq<MessageView>
    decreases v.len(),
{
    if v.len() == 0 {
        Seq::empty()
    } else {
        steps_message_views(v.drop_last()) + step_message_views(v.last())
    }
}

/// Whether the messages carry the identifiers drawn from `nonce` on, in
/// order.
pub open spec fn numbered_from(ms: Seq<MessageView>, nonce: int) -> bool {
    forall|i: int| 0 <= i < ms.len() ==> #[trigger] ms[i].id == id_bytes_of_u64((nonce + i) as u64)
}

proof fn lemma_opt_messages_numbered(
    data: Option<Seq<SampleMessage>>,
    nonce: int,
    notebook: Map<Seq<char>, Seq<u8>>,
    registry: Map<u64, Seq<u8>>,
)
    requires
        resolve_opt_messages(data, nonce, notebook, registry).result is Some,
    ensures
        ({
            let res = resolve_opt_messages(data, nonce, notebook, registry);
            let ms = opt_views(res.result->0);
            &&& ms.len() == opt_seq_len(data)
            &&& res.nonce == nonce + opt_seq_len(data)
            &&& numbered_from(ms, nonce)
        }),
{
    if let Some(v) = data {
        lemma_messages_numbered_in_order(v, nonce, notebook, registry);
    }
}

proof fn lemma_concat_numbered(a: Seq<MessageView>, b: Seq<MessageView>, nonce: int)
    requires
        numbered_from(a, nonce),
        numbered_from(b, nonce + a.len()),
    ensures
        numbered_from(a + b, nonce),
{
    assert forall|i: int| 0 <= i < (a + b).len() implies #[trigger] (a + b)[i].id == id_bytes_of_u64((nonce + i) as u64) by {
        if i >= a.len() {
            assert((a + b)[i] == b[i - a.len()]);
        }
    }
}

/// When a step resolves, its built messages (messages, wait list, mailbox) carry
/// the identifiers drawn from `nonce` on, one per message.
pub proof fn lemma_step_messages_numbered(
    step: SampleStep,
    numbering: Numbering,
    nonce: int,
    notebook: Map<Seq<char>, Seq<u8>>,
    registry: Map<u64, Seq<u8>>,
)
    requires
        resolve_step(step, numbering, nonce, notebook, registry).result is Some,
    ensures
        ({
            let res = resolve_step(step, numbering, nonce, notebook, registry);
            let ms = step_message_views((res.result->0).0);
            &&& ms.len() == step_message_count(step)
            &&& res.nonce == nonce + step_message_count(step)
            &&& numbered_from(ms, nonce)
        }),
{
    let m = resolve_opt_messages(opt_seq(step.messages), nonce, notebook, registry);
    lemma_opt_messages_numbered(opt_seq(step.messages), nonce, notebook, registry);
    let w = resolve_opt_messages(opt_seq(step.messages), m.nonce, notebook, m.registry);
    lemma_opt_messages_numbered(opt_seq(step.messages), m.nonce, notebook, m.registry);
    let b = resolve_opt_messages(opt_seq(step.messages), w.nonce, notebook, w.registry);
    lemma_opt_messages_numbered(opt_seq(step.messages), w.nonce, notebook, w.registry);
    let v = (resolve_step(step, numbering, nonce, notebook, registry).result->0).0;
    assert(v.messages == m.result->0);
    assert(v.waitlist == w.result->0);
    assert(v.mailbox == b.result->0);
    lemma_concat_numbered(opt_views(v.messages), opt_views(v.waitlist), nonce);
    lemma_concat_numbered(
        opt_views(v.messages) + opt_views(v.waitlist),
        opt_views(v.mailbox),
        nonce,
    );
}

/// When steps resolve, their messages, step after step, carry the
/// identifiers drawn from `nonce` on, one per message: every message of the
/// steps gets an identifier of its own.
pub proof fn lemma_steps_messages_numbered(
    steps: Seq<SampleStep>,
    nonce: int,
    notebook: Map<Seq<char>, Seq<u8>>,
    registry: Map<u64, Seq<u8>>,
)
    requires
        resolve_steps(steps, nonce, notebook, registry).result is Some,
    ensures
        ({
            let res = resolve_steps(steps, nonce, notebook, registry);
            let ms = steps_message_views((res.result->0).0);
            &&& ms.len() == steps_message_count(steps)
            &&& res.nonce == nonce + steps_message_count(steps)
            &&& numbered_from(ms, nonce)
        }),
    decreases steps.len(),
{
    if steps.len() > 0 {
        let d = steps.drop_last();
        lemma_steps_messages_numbered(d, nonce, notebook, registry);
        let before = resolve_steps(d, nonce, notebook, registry);
        let (done, numbering) = before.result->0;
        lemma_step_messages_numbered(steps.last(), numbering, before.nonce, notebook, before.registry);
        let last = resolve_step(steps.last(), numbering, before.nonce, notebook, before.registry);
        let v = (resolve_steps(steps, nonce, notebook, registry).result->0).0;
        assert(v == done.push((last.result->0).0));
        assert(v.drop_last() =~= done);
        lemma_concat_numbered(steps_message_views(done), step_message_views((last.result->0).0), nonce);
    }
}

/// When steps resolve without the nonce leaving the range of `u64`, no two
/// of their messages share an identifier.
pub proof fn lemma_steps_message_ids_distinct(
    steps: Seq<SampleStep>,
    nonce: int,
    notebook: Map<Seq<char>, Seq<u8>>,
    registry: Map<u64, Seq<u8>>,
)
    requires
        resolve_steps(steps, nonce, notebook, registry).result is Some,
        0 <= nonce,
        nonce + steps_message_count(steps) <= u64::MAX + 1,
    ensures
        ({
            let ms = steps_message_views((resolve_steps(steps, nonce, notebook, registry).result->0).0);
            forall|i: int, j: int| 0 <= i < j < ms.len() ==> #[trigger] ms[i].id != #[trigger] ms[j].id
        }),
{
    lemma_steps_messages_numbered(steps, nonce, notebook, registry);
    let ms = steps_message_views((resolve_steps(steps, nonce, notebook, registry).result->0).0);
    assert forall|i: int, j: int| 0 <= i < j < ms.len() implies #[trigger] ms[i].id != #[trigger] ms[j].id by {
        if ms[i].id == ms[j].id {
            lemma_id_bytes_of_u64_injective((nonce + i) as u64, (nonce + j) as u64);
        }
    }
}

/// Applying `f` to two lists joined gives the first list's error, else the
/// second list's error, else the two results joined. (`transform` gives
/// `transform_seq` for a deterministic `f`.)
pub proof fn lemma_transform_joined<T, R, F: Fn(T) -> core::result::Result<R, String>>(
    f: F,
    a: Seq<T>,
    b: Seq<T>,
)
    ensures
        transform_seq(f, a + b) == match transform_seq(f, a) {
            Err(e) => Err(e),
            Ok(ra) => match transform_seq(f, b) {
                Err(e) => Err(e),
                Ok(rb) => Ok(ra + rb),
            },
        },
    decreases b.len(),
{
    if b.len() == 0 {
        assert(a + b =~= a);
        if let Ok(ra) = transform_seq(f, a) {
            assert(ra + Seq::<R>::empty() =~= ra);
        }
    } else {
        let b2 = b.drop_last();
        lemma_transform_joined(f, a, b2);
        assert((a + b).drop_last() =~= a + b2);
        assert((a + b).last() == b.last());
        if let Ok(ra) = transform_seq(f, a) {
            if let Ok(rb2) = transform_seq(f, b2) {
                if let Ok(x) = applied(f, b.last()) {
                    assert(ra + rb2.push(x) =~= (ra + rb2).push(x));
                }
            }
        }
    }
}

/// A step that follows no final step and whose number is not below the
/// last number is accepted with that number, which becomes the last; an
/// unnumbered step after no final step is the final step; anything after
/// the final step, or a number below the last, is refused. Numbers may jump
/// by any amount.
pub proof fn lemma_step_number_rules(step: SampleStep, numbering: Numbering)
    ensures
        numbering.found_final ==> step_number(step, numbering) is None,
        !numbering.found_final ==> match step.number {
            Some(num) => if num >= numbering.current {
                step_number(step, numbering) == Some(
                    (StepNumber::Ordered(num), Numbering { current: num, found_final: false }),
                )
            } else {
                step_number(step, numbering) is None
            },
            None => step_number(step, numbering) == Some(
                (
                    StepNumber::Final,
                    Numbering { current: numbering.current, found_final: true },
                ),
            ),
        },
{
}

/// Whether a step has nothing to build: no messages, memory, allocations,
/// wait list, query or mailbox.
pub open spec fn bare_step(s: SampleStep) -> bool {
    &&& s.messages is None
    &&& s.memory is None
    &&& s.allocations is None
    &&& s.waitlist is None
    &&& s.query is None
    &&& s.mailbox is None
}

/// Steps that are all numbered, with numbers that never go down (gaps
/// allowed), and nothing to build resolve: each keeps its number, the nonce
/// and registry are untouched, and the last number is the last step's.
pub proof fn lemma_numbered_steps_resolve(
    steps: Seq<SampleStep>,
    nonce: int,
    notebook: Map<Seq<char>, Seq<u8>>,
    registry: Map<u64, Seq<u8>>,
)
    requires
        forall|i: int| 0 <= i < steps.len() ==> #[trigger] steps[i].number is Some && bare_step(steps[i]),
        forall|i: int, j: int|
            0 <= i < j < steps.len() ==> (#[trigger] steps[i].number)->0 <= (#[trigger] steps[j].number)->0,
    ensures
        ({
            let res = resolve_steps(steps, nonce, notebook, registry);
            &&& res.result is Some
            &&& res.nonce == nonce
            &&& res.registry == registry
            &&& (res.result->0).0.len() == steps.len()
            &&& forall|i: int| 0 <= i < steps.len() ==> #[trigger] (res.result->0).0[i].number
                == StepNumber::Ordered(steps[i].number->0)
            &&& !(res.result->0).1.found_final
            &&& steps.len() > 0 ==> (res.result->0).1.current == steps.last().number->0
        }),
    decreases steps.len(),
{
    if steps.len() > 0 {
        let d = steps.drop_last();
        assert forall|i: int| 0 <= i < d.len() implies #[trigger] d[i].number is Some && bare_step(d[i]) by {
            assert(d[i] == steps[i]);
        }
        assert forall|i: int, j: int| 0 <= i < j < d.len() implies (#[trigger] d[i].number)->0 <= (#[trigger] d[j].number)->0 by {
            assert(d[i] == steps[i] && d[j] == steps[j]);
        }
        lemma_numbered_steps_resolve(d, nonce, notebook, registry);
        let before = resolve_steps(d, nonce, notebook, registry);
        let (done, numbering) = before.result->0;
        let last = steps.last();
        assert(last == steps[steps.len() - 1]);
        assert(last.number is Some && bare_step(last));
        if d.len() > 0 {
            assert(d.last() == steps[d.len() - 1]);
            assert((steps[d.len() - 1].number)->0 <= (steps[steps.len() - 1].number)->0);
        }
        lemma_step_number_rules(last, numbering);
        let (v, n2) = resolve_steps(steps, nonce, notebook, registry).result->0;
        assert forall|i: int| 0 <= i < steps.len() implies #[trigger] v[i].number
            == StepNumber::Ordered(steps[i].number->0) by {
            if i < steps.len() - 1 {
                assert(v[i] == done[i]);
                assert(d[i] == steps[i]);
            }
        }
    }
}

/// Whether the actor is a program with an init message.
pub open spec fn has_init_message(a: Actor) -> bool {
    a matches Actor::Program(p) && p.message is Some
}

/// The number of programs with an init message among the actors.
pub open spec fn init_count(actors: Seq<Actor>) -> nat
    decreases actors.len(),
{
    if actors.len() == 0 {
        0
    } else {
        init_count(actors.drop_last()) + if has_init_message(actors.last()) {
            1nat
        } else {
            0nat
        }
    }
}

/// The identifier of an actor's address.
pub open spec fn actor_id(a: Actor) -> Seq<u8> {
    chain_address_id(actor_address(a))
}

/// Whether the `i`-th actor is a program with an init message, and no later
/// actor is a program at its address (so its program keeps that message).
pub open spec fn keeps_its_init(actors: Seq<Actor>, i: int) -> bool {
    &&& 0 <= i < actors.len()
    &&& has_init_message(actors[i])
    &&& forall|j: int| i < j < actors.len() ==> !(#[trigger] actors[j] is Program && actor_id(actors[j]) == actor_id(actors[i]))
}

/// When the actors resolve, one identifier is drawn per init message, across
/// all the actors in order: the nonce ends at the number of init messages,
/// and a program that keeps its init message has the identifier drawn from
/// the number of init messages of the actors before it.
pub proof fn lemma_actor_inits_numbered(actors: Seq<Actor>, codes: Seq<Option<Vec<u8>>>)
    requires
        resolve_actors(actors, codes) is Ok,
    ensures
        ({
            let st = resolve_actors(actors, codes)->Ok_0;
            &&& st.nonce == init_count(actors)
            &&& forall|i: int| #[trigger] keeps_its_init(actors, i) ==> {
                &&& st.programs.contains_key(actor_id(actors[i]))
                &&& st.programs[actor_id(actors[i])].init matches Some(m)
                &&& m.id == id_bytes_of_u64(init_count(actors.take(i)) as u64)
            }
        }),
    decreases actors.len(),
{
    if actors.len() > 0 {
        let d = actors.drop_last();
        lemma_actor_inits_numbered(d, codes);
        let st0 = resolve_actors(d, codes)->Ok_0;
        let st = resolve_actors(actors, codes)->Ok_0;
        let n = actors.len() - 1;
        let last = actors.last();
        assert(actors.take(n) =~= d);
        assert forall|i: int| #[trigger] keeps_its_init(actors, i) implies {
            &&& st.programs.contains_key(actor_id(actors[i]))
            &&& st.programs[actor_id(actors[i])].init matches Some(m)
            &&& m.id == id_bytes_of_u64(init_count(actors.take(i)) as u64)
        } by {
            if i < n {
                assert(d[i] == actors[i]);
                assert(d.take(i) =~= actors.take(i));
                assert forall|j: int| i < j < d.len() implies !(#[trigger] d[j] is Program && actor_id(d[j]) == actor_id(d[i])) by {
                    assert(d[j] == actors[j]);
                    assert(!(actors[j] is Program && actor_id(actors[j]) == actor_id(actors[i])));
                }
                assert(keeps_its_init(d, i));
                assert(!(actors[n] is Program && actor_id(actors[n]) == actor_id(actors[i])));
            }
        }
    }
}

/// The number of init messages among the first `k` actors grows by one at
/// each program with an init message, and is at most `k`.
pub proof fn lemma_init_count_prefix(actors: Seq<Actor>, k: int)
    requires
        0 <= k < actors.len(),
    ensures
        init_count(actors.take(k + 1)) == init_count(actors.take(k)) + if has_init_message(
            actors[k],
        ) {
            1int
        } else {
            0int
        },
        init_count(actors.take(k)) <= k,
    decreases k,
{
    assert(actors.take(k + 1).drop_last() =~= actors.take(k));
    if k > 0 {
        lemma_init_count_prefix(actors, k - 1);
    } else {
        assert(actors.take(0) =~= Seq::<Actor>::empty());
    }
}

/// The number of init messages among the first `a` actors is at most that
/// among the first `b`, for `a <= b`.
proof fn lemma_init_count_grows(actors: Seq<Actor>, a: int, b: int)
    requires
        0 <= a <= b <= actors.len(),
    ensures
        init_count(actors.take(a)) <= init_count(actors.take(b)),
    decreases b - a,
{
    if a < b {
        lemma_init_count_prefix(actors, b - 1);
        lemma_init_count_grows(actors, a, b - 1);
    }
}

/// When the actors resolve, two programs that keep their init messages
/// have init messages with different identifiers.
pub proof fn lemma_actor_init_ids_distinct(
    actors: Seq<Actor>,
    codes: Seq<Option<Vec<u8>>>,
    i: int,
    j: int,
)
    requires
        resolve_actors(actors, codes) is Ok,
        actors.len() <= u64::MAX,
        keeps_its_init(actors, i),
        keeps_its_init(actors, j),
        i != j,
    ensures
        ({
            let st = resolve_actors(actors, codes)->Ok_0;
            (st.programs[actor_id(actors[i])].init->0).id != (st.programs[actor_id(
                actors[j],
            )].init->0).id
        }),
{
    lemma_actor_inits_numbered(actors, codes);
    let (a, b) = if i < j { (i, j) } else { (j, i) };
    lemma_init_count_prefix(actors, a);
    lemma_init_count_prefix(actors, b);
    lemma_init_count_grows(actors, a + 1, b);
    let x = init_count(actors.take(a));
    let y = init_count(actors.take(b));
    assert(x < y && y <= u64::MAX);
    if id_bytes_of_u64(x as u64) == id_bytes_of_u64(y as u64) {
        lemma_id_bytes_of_u64_injective(x as u64, y as u64);
    }
}

/// Whether the `j`-th init message is the last one sent to its destination.
pub open spec fn last_to_its_dest(inits: Seq<MessageView>, j: int) -> bool {
    &&& 0 <= j < inits.len()
    &&& forall|k: int| j < k < inits.len() ==> #[trigger] inits[k].dest != inits[j].dest
}

/// Whether no init message is sent to `d`.
pub open spec fn untargeted(inits: Seq<MessageView>, d: Seq<u8>) -> bool {
    forall|j: int| 0 <= j < inits.len() ==> #[trigger] inits[j].dest != d
}

/// Giving init messages to programs succeeds exactly when each is sent to a
/// program. Then the programs are the same and keep their paths and code;
/// each program that some message is sent to has the last such message as
/// its init message (replacing the one it had); any other program is
/// unchanged.
pub proof fn lemma_apply_inits_last_wins(
    programs: Map<Seq<u8>, WasmProgramView>,
    inits: Seq<MessageView>,
)
    ensures
        apply_inits(programs, inits) is Some <==> forall|j: int|
            0 <= j < inits.len() ==> programs.contains_key(#[trigger] inits[j].dest),
        apply_inits(programs, inits) matches Some(p) ==> {
            &&& p.dom() == programs.dom()
            &&& forall|d: Seq<u8>| #[trigger] p.contains_key(d) ==> p[d].path == programs[d].path
                && p[d].code == programs[d].code
            &&& forall|j: int| #[trigger] last_to_its_dest(inits, j) ==> p[inits[j].dest] == (
            WasmProgramView { init: Some(inits[j]), ..programs[inits[j].dest] })
            &&& forall|d: Seq<u8>|
                programs.contains_key(d) && #[trigger] untargeted(inits, d) ==> p[d] == programs[d]
        },
    decreases inits.len(),
{
    if inits.len() > 0 {
        let d = inits.drop_last();
        let n = inits.len() - 1;
        let m = inits.last();
        lemma_apply_inits_last_wins(programs, d);
        assert forall|j: int| 0 <= j < d.len() implies d[j] == inits[j] by {}
        if forall|j: int| 0 <= j < inits.len() ==> programs.contains_key(#[trigger] inits[j].dest) {
            assert forall|j: int| 0 <= j < d.len() implies programs.contains_key(#[trigger] d[j].dest) by {
                assert(programs.contains_key(inits[j].dest));
            }
            assert(programs.contains_key(inits[n].dest));
        } else {
            let j = choose|j: int| 0 <= j < inits.len() && !programs.contains_key(#[trigger] inits[j].dest);
            if j < n {
                assert(!programs.contains_key(d[j].dest));
            }
        }
        if apply_inits(programs, inits) is Some {
            let p0 = apply_inits(programs, d)->0;
            let p = apply_inits(programs, inits)->0;
            assert(p == p0.insert(m.dest, WasmProgramView { init: Some(m), ..p0[m.dest] }));
            assert(p.dom() =~= programs.dom());
            assert forall|j: int| #[trigger] last_to_its_dest(inits, j) implies p[inits[j].dest] == (
            WasmProgramView { init: Some(inits[j]), ..programs[inits[j].dest] }) by {
                if j < n {
                    assert(inits[n].dest != inits[j].dest);
                    assert forall|k: int| j < k < d.len() implies #[trigger] d[k].dest != d[j].dest by {
                        assert(inits[k].dest != inits[j].dest);
                    }
                    assert(last_to_its_dest(d, j));
                } else {
                    assert(p0.contains_key(m.dest));
                }
            }
            assert forall|x: Seq<u8>|
                programs.contains_key(x) && #[trigger] untargeted(inits, x) implies p[x] == programs[x] by {
                assert(inits[n].dest != x);
                assert forall|j: int| 0 <= j < d.len() implies #[trigger] d[j].dest != x by {
                    assert(inits[j].dest != x);
                }
                assert(untargeted(d, x));
            }
        }
    }
}

/// When a fixture resolves, every program that its init messages are sent
/// to has, as its init message, the last one sent to it, in place of any it
/// had; the other programs are as they were given.
pub proof fn lemma_fixture_inits_given(
    default_name: Seq<char>,
    notebook: Map<Seq<char>, Seq<u8>>,
    programs: Map<Seq<u8>, WasmProgramView>,
    fixture: SampleFixture,
)
    requires
        resolve_fixture(default_name, notebook, programs, fixture) is Some,
    ensures
        ({
            let f = resolve_fixture(default_name, notebook, programs, fixture)->0;
            let i = resolve_opt_messages(
                opt_seq(fixture.inits),
                programs.len() as int,
                notebook,
                Map::empty(),
            );
            let v = match i.result {
                Some(Some(v)) => v,
                _ => Seq::empty(),
            };
            &&& i.result is Some
            &&& forall|j: int| #[trigger] last_to_its_dest(v, j) ==> f.programs[v[j].dest] == (
            WasmProgramView { init: Some(v[j]), ..programs[v[j].dest] })
            &&& forall|d: Seq<u8>|
                programs.contains_key(d) && #[trigger] untargeted(v, d) ==> f.programs[d] == programs[d]
        }),
{
    let i = resolve_opt_messages(opt_seq(fixture.inits), programs.len() as int, notebook, Map::empty());
    match i.result {
        Some(Some(v)) => {
            lemma_apply_inits_last_wins(programs, v);
        },
        _ => {
            assert forall|d: Seq<u8>| programs.contains_key(d) && #[trigger] untargeted(Seq::<MessageView>::empty(), d) implies resolve_fixture(default_name, notebook, programs, fixture)->0.programs[d] == programs[d] by {}
        },
    }
}

} // verus!
