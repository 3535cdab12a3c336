//! Reading an event back: its own row, the trigger that schedules it and
//! the effects it has, each read from the rows they were written to.
use vstd::prelude::*;

use crate::cloning::copy_text;
use crate::copy_plan::{effects_of_event, event_effect_ids, find_root_last, last_where, lemma_last_where, roots_event};
use crate::effects::{
    effect_list_layout, effect_list_round_trip, read_back_kinds, sources_fit, effect_read_error, first_where, lemma_first_at, lemma_first_none, read_effect, read_effect_list,
    read_effect_model,
    EffectLayout, EffectModel, EffectReadFault, EffectRows, EffectSpec,
};
use crate::error::{owned, ApiError};
use crate::rows::{EventRow, TriggerRow};
use crate::specs::TriggerParent;
use crate::triggers::{
    lemma_trigger_events, lemma_trigger_shape, normalized, trigger_count, trigger_layout, trigger_round_trip,
    read_trigger, read_trigger_error, read_trigger_model, text_of, trigger_row_views, TriggerModel,
    TriggerReadFault, TriggerRowView, TriggerSpec,
};

verus! {

/// An event as the editor shows it.
pub struct Event {
    pub id: i64,
    pub name: String,
    pub description: Option<String>,
    pub fires_once: bool,
    pub enabled: bool,
    pub sort_order: i64,
    pub trigger: TriggerSpec,
    pub effects: Vec<EffectSpec>,
}

pub struct EventModel {
    pub id: i64,
    pub name: Seq<char>,
    pub description: Option<Seq<char>>,
    pub fires_once: bool,
    pub enabled: bool,
    pub sort_order: i64,
    pub trigger: TriggerModel,
    pub effects: Seq<EffectModel>,
}

impl View for Event {
    type V = EventModel;

    open spec fn view(&self) -> EventModel {
        EventModel {
            id: self.id,
            name: self.name@,
            description: text_of(self.description),
            fires_once: self.fires_once,
            enabled: self.enabled,
            sort_order: self.sort_order,
            trigger: self.trigger@,
            effects: self.effects@.map_values(|e: EffectSpec| e@),
        }
    }
}

/// Why an event cannot be read back.
pub enum EventReadFault {
    /// No event row has the id.
    Missing,
    /// No trigger row is the event's root.
    NoTrigger,
    /// One of its effects cannot be read back.
    Effect(EffectReadFault),
    /// Its trigger cannot be read back.
    Trigger(TriggerReadFault),
}

pub open spec fn event_read_error(f: EventReadFault, e: ApiError) -> bool {
    match f {
        EventReadFault::Missing => e == ApiError::NotFound("event"),
        EventReadFault::NoTrigger => e matches ApiError::Internal(m) && m@ == "event has no trigger"@,
        EventReadFault::Effect(x) => effect_read_error(x, e),
        EventReadFault::Trigger(x) => read_trigger_error(x, e),
    }
}

/// Whether an event row has this id.
pub open spec fn is_event(id: i64) -> spec_fn(EventRow) -> bool {
    |r: EventRow| r.id == id
}

/// The event with this id as read back from its rows: the first event row
/// with the id; the last trigger row that is its root; its effects in the
/// order of their rows, all of them read before the trigger.
pub open spec fn read_event_model(
    events: Seq<EventRow>,
    triggers: Seq<TriggerRowView>,
    g: EffectLayout,
    id: i64,
) -> Result<EventModel, EventReadFault> {
    let i = first_where(events, is_event(id));
    if i < 0 {
        Err(EventReadFault::Missing)
    } else {
        let t = last_where(triggers, roots_event(id));
        if t < 0 {
            Err(EventReadFault::NoTrigger)
        } else {
            match read_effect_list(g, event_effect_ids(g.effects, id)) {
                Err(f) => Err(EventReadFault::Effect(f)),
                Ok(effects) => match read_trigger_model(triggers, triggers[t].id, 0) {
                    Err(f) => Err(EventReadFault::Trigger(f)),
                    Ok(trigger) => {
                        let r = events[i];
                        Ok(
                            EventModel {
                                id: r.id,
                                name: r.name@,
                                description: text_of(r.description),
                                fires_once: r.fires_once != 0,
                                enabled: r.enabled != 0,
                                sort_order: r.sort_order,
                                trigger,
                                effects,
                            },
                        )
                    },
                },
            }
        }
    }
}

/// The first event row with this id.
fn find_event(events: &[EventRow], id: i64) -> (r: Option<usize>)
    ensures
        match r {
            Some(k) => k < events@.len() && k as int == first_where(events@, is_event(id)),
            None => first_where(events@, is_event(id)) < 0,
        },
{
    let ghost p = is_event(id);
    let mut i: usize = 0;
    while i < events.len()
        invariant
            i <= events@.len(),
            p == is_event(id),
            forall|j: int| 0 <= j < i ==> !p(#[trigger] events@[j]),
        decreases events@.len() - i,
    {
        if events[i].id == id {
            proof {
                lemma_first_at(events@, p, i as int);
            }
            return Some(i);
        }
        i = i + 1;
    }
    proof {
        lemma_first_none(events@, p);
    }
    None
}

/// Once an effect cannot be read back, the list reports what it reports.
proof fn lemma_list_stop(g: EffectLayout, ids: Seq<i64>, k: int)
    requires
        0 <= k < ids.len(),
        read_effect_list(g, ids.take(k)) is Ok,
        read_effect_model(g, ids[k], 0) is Err,
    ensures
        read_effect_list(g, ids) == Err::<Seq<EffectModel>, EffectReadFault>(
            read_effect_model(g, ids[k], 0)->Err_0,
        ),
    decreases ids.len() - k,
{
    let n = ids.len() as int;
    let prev = ids.take(n - 1);
    assert(ids.drop_last() == prev);
    if k == n - 1 {
        assert(prev == ids.take(k));
    } else {
        assert(prev.take(k) == ids.take(k));
        lemma_list_stop(g, prev, k);
    }
}

/// Reads back the event with this id, as [`read_event_model`] says.
pub fn read_event(events: &[EventRow], triggers: &[TriggerRow], rows: &EffectRows, id: i64) -> (r: Result<
    Event,
    ApiError,
>)
    ensures
        match read_event_model(events@, trigger_row_views(triggers@), rows@, id) {
            Ok(m) => r matches Ok(ev) && ev@ == m,
            Err(f) => r matches Err(e) && event_read_error(f, e),
        },
{
    let i = match find_event(events, id) {
        Some(k) => k,
        None => return Err(ApiError::NotFound("event")),
    };
    let t = match find_root_last(triggers, id) {
        Some(k) => k,
        None => return Err(ApiError::internal("event has no trigger")),
    };
    let ids = effects_of_event(&rows.effects, id);
    let ghost g = rows@;
    assert(ids@ == event_effect_ids(g.effects, id));
    let mut effects: Vec<EffectSpec> = Vec::new();
    let mut k: usize = 0;
    assert(ids@.take(0) =~= Seq::<i64>::empty());
    assert(effects@.map_values(|e: EffectSpec| e@) =~= Seq::<EffectModel>::empty());
    while k < ids.len()
        invariant
            k <= ids@.len(),
            g == rows@,
            ids@ == event_effect_ids(g.effects, id),
            first_where(events@, is_event(id)) >= 0,
            last_where(trigger_row_views(triggers@), roots_event(id)) >= 0,
            read_effect_list(g, ids@.take(k as int)) == Ok::<Seq<EffectModel>, EffectReadFault>(
                effects@.map_values(|e: EffectSpec| e@),
            ),
        decreases ids@.len() - k,
    {
        assert(ids@.take(k + 1).drop_last() == ids@.take(k as int));
        let ghost before = effects@;
        match read_effect(rows, ids[k], 0) {
            Ok(e) => {
                effects.push(e);
                assert(effects@.map_values(|e: EffectSpec| e@) =~= before.map_values(|e: EffectSpec| e@).push(
                    e@,
                ));
            },
            Err(x) => {
                proof {
                    lemma_list_stop(g, ids@, k as int);
                }
                return Err(x);
            },
        }
        k = k + 1;
    }
    assert(ids@.take(ids@.len() as int) == ids@);
    let ghost tv = trigger_row_views(triggers@);
    assert(tv[t as int].id == triggers@[t as int].id);
    let trigger = match read_trigger(triggers, triggers[t].id, 0) {
        Ok(x) => x,
        Err(x) => return Err(x),
    };
    let row = &events[i];
    Ok(
        Event {
            id: row.id,
            name: owned(row.name.as_str()),
            description: copy_text(&row.description),
            fires_once: row.fires_once != 0,
            enabled: row.enabled != 0,
            sort_order: row.sort_order,
            trigger,
            effects,
        },
    )
}

/// What is written is read back: an event whose row is the first with its
/// id, whose trigger is laid out as rows numbered from `tbase` hanging in
/// it, and whose effects, each of a kind the reader rebuilds, are laid out
/// one after another at their positions, reads back as that row, that
/// trigger with its dates in canonical form, and those effects in order.
pub proof fn event_round_trip(
    events: Seq<EventRow>,
    k: int,
    t: TriggerModel,
    ms: Seq<EffectModel>,
    tbase: int,
    ebase: int,
    abase: int,
    params: Seq<(i64, Seq<char>)>,
)
    requires
        0 <= k < events.len(),
        first_where(events, is_event(events[k].id)) == k,
        tbase >= 0,
        tbase + trigger_count(t) <= i64::MAX,
        trigger_layout(t, TriggerParent::Event(events[k].id), 0, tbase, params) is Ok,
        ebase >= 0,
        abase >= 0,
        forall|j: int| 0 <= j < ms.len() ==> read_back_kinds(#[trigger] ms[j]) && sources_fit(ms[j]),
        effect_list_layout(ms, events[k].id, ebase, abase) is Ok,
        ebase + effect_list_layout(ms, events[k].id, ebase, abase)->Ok_0.effects.len() <= i64::MAX,
        abase + effect_list_layout(ms, events[k].id, ebase, abase)->Ok_0.amounts.len() <= i64::MAX,
    ensures
        read_event_model(
            events,
            trigger_layout(t, TriggerParent::Event(events[k].id), 0, tbase, params)->Ok_0.0,
            effect_list_layout(ms, events[k].id, ebase, abase)->Ok_0,
            events[k].id,
        ) == Ok::<EventModel, EventReadFault>(
            EventModel {
                id: events[k].id,
                name: events[k].name@,
                description: text_of(events[k].description),
                fires_once: events[k].fires_once != 0,
                enabled: events[k].enabled != 0,
                sort_order: events[k].sort_order,
                trigger: normalized(t),
                effects: ms,
            },
        ),
{
    let id = events[k].id;
    let par = TriggerParent::Event(id);
    let (rows, off) = trigger_layout(t, par, 0, tbase, params)->Ok_0;
    lemma_trigger_shape(t, par, 0, tbase, params);
    lemma_trigger_events(t, par, 0, tbase, params);
    trigger_round_trip(t, par, 0, tbase, params);
    let p = roots_event(id);
    lemma_last_where(rows, p);
    let r = last_where(rows, p);
    if r != off {
        if r >= 0 {
            assert(p(rows[r]));
        } else {
            assert(!p(rows[off]));
        }
    }
    assert(rows[off].id == tbase + off);
    effect_list_round_trip(ms, id, ebase, abase);
}

} // verus!
