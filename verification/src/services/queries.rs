//! What is asked of all the services.
//!
//! `W` is what the registry keeps of a service, `S` a service that is alive and `E` an error of
//! the server; none of them is looked into here.

use vstd::prelude::*;

use crate::services::lists_names;
use crate::services::names_are_registered;
use crate::services::names_of;
use crate::services::Services;

verus! {

/// Of `upgraded`, those that are alive, in the same order.
pub open spec fn alive<S>(upgraded: Seq<Option<S>>) -> Seq<S>
    decreases upgraded.len(),
{
    if upgraded.len() == 0 {
        seq![]
    } else {
        match upgraded.last() {
            Some(service) => alive(upgraded.drop_last()).push(service),
            None => alive(upgraded.drop_last()),
        }
    }
}

/// Of `upgraded`, those that are alive, in the same order.
fn keep_alive<S>(upgraded: Vec<Option<S>>) -> (r: Vec<S>)
    ensures
        r@ == alive(upgraded@),
{
    let mut r: Vec<S> = Vec::new();
    for service in it: upgraded
        invariant
            it.seq() == upgraded@,
            r@ == alive(upgraded@.take(it.index() as int)),
    {
        assert(service == upgraded@[it.index() as int]);
        assert(upgraded@.take(it.index() + 1).drop_last() =~= upgraded@.take(it.index() as int));
        match service {
            Some(service) => {
                r.push(service);
            },
            None => {},
        }
    }
    assert(upgraded@.take(upgraded@.len() as int) =~= upgraded@);
    r
}

/// Of the services with these names, those that are alive with their names, in the same order.
pub open spec fn alive_by_name<S>(names: Seq<Seq<char>>, upgraded: Seq<Option<S>>) -> Seq<(
    Seq<char>,
    S,
)>
    decreases upgraded.len(),
{
    if upgraded.len() == 0 {
        seq![]
    } else {
        let before = alive_by_name(names, upgraded.drop_last());
        match upgraded.last() {
            Some(service) => before.push((names[upgraded.len() - 1], service)),
            None => before,
        }
    }
}

/// What a sequence of names and services holds.
pub open spec fn by_name<S>(services: Seq<(String, S)>) -> Seq<(Seq<char>, S)> {
    services.map_values(|service: (String, S)| (service.0@, service.1))
}

/// The texts one after the other.
pub open spec fn joined(texts: Seq<Seq<char>>) -> Seq<char>
    decreases texts.len(),
{
    if texts.len() == 0 {
        seq![]
    } else {
        joined(texts.drop_last()) + texts.last()
    }
}

/// The collecting of reports: the services that have not reported yet.
pub struct MemoryUsage<S> {
    pub services: Vec<S>,
}

/// What a [`MemoryUsage`] asks for.
pub enum MemoryRequest<S, E> {
    /// A service to add its report to the reports before it.
    Report { service: S, out: String },
    /// Nothing: the collecting ends.
    Finish(Result<String, E>),
}

/// What a [`MemoryRequest`] says.
pub enum MemoryRequestView<S, E> {
    Report { service: S, out: Seq<char> },
    Finish(Result<Seq<char>, E>),
}

impl<S, E> View for MemoryRequest<S, E> {
    type V = MemoryRequestView<S, E>;

    open spec fn view(&self) -> MemoryRequestView<S, E> {
        match self {
            MemoryRequest::Report { service, out } => MemoryRequestView::Report {
                service: *service,
                out: out@,
            },
            MemoryRequest::Finish(Ok(out)) => MemoryRequestView::Finish(Ok(out@)),
            MemoryRequest::Finish(Err(error)) => MemoryRequestView::Finish(Err(*error)),
        }
    }
}

/// How the collecting goes on with the reports so far: the first error ends it, and it succeeds
/// once no service is left.
pub open spec fn memory_next<S, E>(services: Seq<S>, out: Result<Seq<char>, E>) -> (
    Seq<S>,
    MemoryRequestView<S, E>,
) {
    match out {
        Err(error) => (services, MemoryRequestView::Finish(Err(error))),
        Ok(out) => if services.len() == 0 {
            (services, MemoryRequestView::Finish(Ok(out)))
        } else {
            (services.drop_first(), MemoryRequestView::Report { service: services[0], out })
        },
    }
}

/// What a result with a text says.
pub open spec fn text_result<E>(out: Result<String, E>) -> Result<Seq<char>, E> {
    match out {
        Ok(out) => Ok(out@),
        Err(error) => Err(error),
    }
}

impl<S> MemoryUsage<S> {
    /// Goes on with the reports so far.
    pub fn step<E>(self, out: Result<String, E>) -> (r: (MemoryUsage<S>, MemoryRequest<S, E>))
        ensures
            (r.0.services@, r.1@) == memory_next(self.services@, text_result(out)),
    {
        let mut services = self.services;
        match out {
            Err(error) => (MemoryUsage { services }, MemoryRequest::Finish(Err(error))),
            Ok(out) => {
                if services.len() == 0 {
                    (MemoryUsage { services }, MemoryRequest::Finish(Ok(out)))
                } else {
                    let service = services.remove(0);
                    assert(services@ =~= self.services@.drop_first());
                    (MemoryUsage { services }, MemoryRequest::Report { service, out })
                }
            },
        }
    }
}

/// Where the collecting stands after `outs`, each of them the reports so far.
pub open spec fn memory_run<S, E>(services: Seq<S>, outs: Seq<Result<Seq<char>, E>>) -> (
    Seq<S>,
    MemoryRequestView<S, E>,
)
    decreases outs.len(),
{
    if outs.len() == 0 {
        memory_next(services, Ok(seq![]))
    } else {
        memory_next(memory_run(services, outs.drop_last()).0, outs.last())
    }
}

/// What comes back where each service adds its report to those before it.
pub open spec fn added_reports<E>(reports: Seq<Seq<char>>) -> Seq<Result<Seq<char>, E>> {
    Seq::new(reports.len(), |i: int| Ok(joined(reports.take(i + 1))))
}

/// Where each service adds its report, every service is asked once, in order, and the reports of
/// all of them stand one after the other in the end.
pub proof fn memory_usage_joins_reports<S, E>(services: Seq<S>, reports: Seq<Seq<char>>)
    requires
        reports.len() <= services.len(),
    ensures
        ({
            let request = memory_run(services, added_reports::<E>(reports)).1;
            if reports.len() < services.len() {
                request == MemoryRequestView::<S, E>::Report {
                    service: services[reports.len() as int],
                    out: joined(reports),
                }
            } else {
                request == MemoryRequestView::<S, E>::Finish(Ok(joined(reports)))
            }
        }),
{
    memory_usage_goes_through(services, added_reports::<E>(reports));
    if reports.len() > 0 {
        assert(reports.take(reports.len() as int) =~= reports);
    }
}

/// While there is no error, the services are asked one after the other, each with what the one before
/// it has left, and what the last one has left is the result.
pub proof fn memory_usage_goes_through<S, E>(services: Seq<S>, outs: Seq<Result<Seq<char>, E>>)
    requires
        outs.len() <= services.len(),
        forall|i: int| 0 <= i < outs.len() ==> #[trigger] outs[i] is Ok,
    ensures
        ({
            let run = memory_run(services, outs);
            let out = if outs.len() == 0 {
                seq![]
            } else {
                outs.last()->Ok_0
            };
            if outs.len() < services.len() {
                run == (
                    services.skip(1 + outs.len() as int),
                    MemoryRequestView::<S, E>::Report { service: services[outs.len() as int], out },
                )
            } else {
                run.1 == MemoryRequestView::<S, E>::Finish(Ok(out))
            }
        }),
    decreases outs.len(),
{
    if outs.len() > 0 {
        assert forall|i: int|
            0 <= i < outs.len() - 1 implies #[trigger] outs.drop_last()[i] is Ok by {
            assert(outs.drop_last()[i] == outs[i]);
        }
        assert(outs[outs.len() - 1] is Ok);
        memory_usage_goes_through(services, outs.drop_last());
        if outs.len() < services.len() {
            assert(services.skip(outs.len() as int).drop_first() =~= services.skip(
                1 + outs.len() as int,
            ));
        }
    } else if services.len() > 0 {
        assert(services.drop_first() =~= services.skip(1));
    }
}

/// An error ends the collecting, whatever was reported before it.
pub proof fn memory_usage_ends_with_an_error<S, E>(
    services: Seq<S>,
    outs: Seq<Result<Seq<char>, E>>,
    error: E,
)
    requires
        outs.len() > 0,
        outs.last() == Err::<Seq<char>, E>(error),
    ensures
        memory_run(services, outs).1 == MemoryRequestView::<S, E>::Finish(Err(error)),
{
}

impl<W> Services<W> {
    /// The services that are alive, in the order of their names, where `upgraded` is what became
    /// of each entry of the registry.
    pub fn services<S>(&self, upgraded: Vec<Option<S>>) -> (r: Vec<S>)
        requires
            upgraded@.len() == self.names().len(),
        ensures
            lists_names(self.names(), self@),
            r@ == alive(upgraded@),
    {
        proof {
            use_type_invariant(self);
            names_are_registered(self.service@);
        }
        keep_alive(upgraded)
    }

    /// The services to be interrupted with their names, in the order of the names: those that are
    /// alive, where `upgraded` is what became of each entry of the registry.
    pub fn interrupt<S>(&self, upgraded: Vec<Option<S>>) -> (r: Vec<(String, S)>)
        requires
            upgraded@.len() == self.names().len(),
        ensures
            lists_names(self.names(), self@),
            by_name(r@) == alive_by_name(self.names(), upgraded@),
    {
        let entries = self.entries();
        let mut r: Vec<(String, S)> = Vec::new();
        let mut place: usize = 0;
        assert(by_name(r@) =~= Seq::<(Seq<char>, S)>::empty());
        for service in it: upgraded
            invariant
                it.seq() == upgraded@,
                place == it.index(),
                names_of(entries@) == self.names(),
                upgraded@.len() == self.names().len(),
                entries@.len() == upgraded@.len(),
                by_name(r@) == alive_by_name(self.names(), upgraded@.take(place as int)),
        {
            let ghost before = r@;
            assert(service == upgraded@[place as int]);
            assert(upgraded@.take(place + 1).drop_last() =~= upgraded@.take(place as int));
            match service {
                Some(service) => {
                    assert(names_of(entries@)[place as int] == entries@[place as int].0@);
                    r.push((entries[place].0.clone(), service));
                    assert(by_name(r@) =~= by_name(before).push(
                        (self.names()[place as int], service),
                    ));
                },
                None => {},
            }
            assert(place < entries.len());
            place = place + 1;
        }
        assert(upgraded@.take(upgraded@.len() as int) =~= upgraded@);
        r
    }

    /// The services whose caches are to be cleared, one after the other: those that are alive, in
    /// the order of their names, where `upgraded` is what became of each entry of the registry.
    pub fn clear_cache<S>(&self, upgraded: Vec<Option<S>>) -> (r: Vec<S>)
        requires
            upgraded@.len() == self.names().len(),
        ensures
            lists_names(self.names(), self@),
            r@ == alive(upgraded@),
    {
        self.services(upgraded)
    }

    /// Starts to collect the reports of the services that are alive, where `upgraded` is what became
    /// of each entry of the registry: asks the first of them for its report.
    pub fn memory_usage<S, E>(&self, upgraded: Vec<Option<S>>) -> (r: (
        MemoryUsage<S>,
        MemoryRequest<S, E>,
    ))
        requires
            upgraded@.len() == self.names().len(),
        ensures
            lists_names(self.names(), self@),
            (r.0.services@, r.1@) == memory_next::<S, E>(alive(upgraded@), Ok(seq![])),
            (r.0.services@, r.1@) == memory_run::<S, E>(alive(upgraded@), seq![]),
    {
        MemoryUsage { services: self.services(upgraded) }.step(Ok(String::new()))
    }
}

/// The services that are interrupted are those that are alive, in the same order, under names that
/// are registered.
pub proof fn interrupted_services_are_those_alive<S>(
    names: Seq<Seq<char>>,
    upgraded: Seq<Option<S>>,
)
    requires
        upgraded.len() <= names.len(),
    ensures
        alive_by_name(names, upgraded).map_values(|service: (Seq<char>, S)| service.1) == alive(
            upgraded,
        ),
        forall|i: int|
            0 <= i < alive_by_name(names, upgraded).len() ==> names.contains(
                (#[trigger] alive_by_name(names, upgraded)[i]).0,
            ),
    decreases upgraded.len(),
{
    if upgraded.len() > 0 {
        let before = alive_by_name(names, upgraded.drop_last());
        interrupted_services_are_those_alive(names, upgraded.drop_last());
        match upgraded.last() {
            Some(service) => {
                let last = (names[upgraded.len() - 1], service);
                assert(before.push(last).map_values(|service: (Seq<char>, S)| service.1)
                    =~= before.map_values(|service: (Seq<char>, S)| service.1).push(service));
                assert forall|i: int| 0 <= i < before.push(last).len() implies names.contains(
                    (#[trigger] before.push(last)[i]).0,
                ) by {
                    if i < before.len() {
                        assert(before.push(last)[i] == before[i]);
                    }
                }
            },
            None => {},
        }
    } else {
        assert(alive_by_name(names, upgraded).map_values(|service: (Seq<char>, S)| service.1)
            =~= alive(upgraded));
    }
}

/// The services that are asked are the entries that are alive, all of them and in the order of the
/// entries: a service is asked if and only if some entry was upgraded to it.
pub proof fn every_service_that_is_alive_is_asked<S>(upgraded: Seq<Option<S>>)
    ensures
        alive(upgraded) == upgraded.filter(|entry: Option<S>| entry is Some).map_values(
            |entry: Option<S>| entry->0,
        ),
        alive(upgraded).len() == upgraded.filter(|entry: Option<S>| entry is Some).len(),
        forall|service: S| #[trigger]
            alive(upgraded).contains(service) <==> upgraded.contains(Some(service)),
    decreases upgraded.len(),
{
    reveal(Seq::filter);
    let is_alive = |entry: Option<S>| entry is Some;
    let value = |entry: Option<S>| entry->0;
    if upgraded.len() > 0 {
        let fewer = upgraded.drop_last();
        every_service_that_is_alive_is_asked(fewer);
        let last = upgraded.last();
        if last is Some {
            assert(fewer.filter(is_alive).push(last).map_values(value) =~= fewer.filter(
                is_alive,
            ).map_values(value).push(last->0));
        }
        assert(alive(upgraded) =~= upgraded.filter(is_alive).map_values(value));
        assert forall|service: S| #[trigger] alive(upgraded).contains(service) <==> upgraded.contains(
            Some(service),
        ) by {
            if upgraded.contains(Some(service)) {
                let i = choose|i: int| 0 <= i < upgraded.len() && upgraded[i] == Some(service);
                if i < fewer.len() {
                    assert(fewer[i] == Some(service));
                    assert(alive(fewer).contains(service));
                    let k = choose|k: int| 0 <= k < alive(fewer).len() && alive(fewer)[k] == service;
                    assert(alive(upgraded)[k] == service);
                } else {
                    assert(alive(upgraded)[alive(fewer).len() as int] == service);
                }
            }
            if alive(upgraded).contains(service) {
                let k = choose|k: int|
                    0 <= k < alive(upgraded).len() && alive(upgraded)[k] == service;
                if k < alive(fewer).len() {
                    assert(alive(fewer)[k] == service);
                    assert(alive(fewer).contains(service));
                    let i = choose|i: int| 0 <= i < fewer.len() && fewer[i] == Some(service);
                    assert(upgraded[i] == Some(service));
                } else {
                    assert(upgraded[upgraded.len() - 1] == Some(service));
                }
            }
        }
    } else {
        assert(alive(upgraded) =~= upgraded.filter(is_alive).map_values(value));
    }
}

/// Each service that is interrupted is interrupted under the name of its own entry, and none that is
/// alive is left out.
pub proof fn every_service_that_is_alive_is_interrupted<S>(
    names: Seq<Seq<char>>,
    upgraded: Seq<Option<S>>,
)
    ensures
        alive_by_name(names, upgraded) == Seq::new(
            upgraded.len(),
            |i: int| (names[i], upgraded[i]),
        ).filter(|entry: (Seq<char>, Option<S>)| entry.1 is Some).map_values(
            |entry: (Seq<char>, Option<S>)| (entry.0, entry.1->0),
        ),
    decreases upgraded.len(),
{
    reveal(Seq::filter);
    let is_alive = |entry: (Seq<char>, Option<S>)| entry.1 is Some;
    let value = |entry: (Seq<char>, Option<S>)| (entry.0, entry.1->0);
    let all = Seq::new(upgraded.len(), |i: int| (names[i], upgraded[i]));
    if upgraded.len() > 0 {
        let fewer = upgraded.drop_last();
        every_service_that_is_alive_is_interrupted(names, fewer);
        let before = Seq::new(fewer.len(), |i: int| (names[i], fewer[i]));
        assert(all.drop_last() =~= before);
        if upgraded.last() is Some {
            assert(before.filter(is_alive).push(all.last()).map_values(value) =~= before.filter(
                is_alive,
            ).map_values(value).push(value(all.last())));
        }
        assert(alive_by_name(names, upgraded) =~= all.filter(is_alive).map_values(value));
    } else {
        assert(alive_by_name(names, upgraded) =~= all.filter(is_alive).map_values(value));
    }
}

/// The reports stand one after the other, all of them and nothing between them.
pub proof fn joined_reports_are_all_of_them(texts: Seq<Seq<char>>)
    ensures
        joined(texts) == texts.flatten(),
    decreases texts.len(),
{
    if texts.len() > 0 {
        joined_reports_are_all_of_them(texts.drop_last());
        texts.drop_last().lemma_flatten_push(texts.last());
        assert(texts.drop_last().push(texts.last()) =~= texts);
    }
}

} // verus!
