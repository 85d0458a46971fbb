//! Hooks: scripts that run before or after a request is sent.
use vstd::prelude::*;

verus! {

/// When a hook runs.
#[derive(Clone, Copy, PartialEq, Eq, Structural, Debug, Hash)]
pub enum Event {
    PreRequest,
    PostRequest,
}

/// The scripts of one event, and whether they run.
#[derive(Debug, PartialEq, Eq)]
pub struct HookEntry {
    pub enabled: bool,
    pub scripts: Vec<String>,
}

/// At most one value for each [`Event`].
#[derive(Debug, PartialEq, Eq)]
pub struct EventMap<V> {
    pub pre_request: Option<V>,
    pub post_request: Option<V>,
}

impl<V> EventMap<V> {
    /// The value held for `e`, if any.
    pub open spec fn slot(&self, e: Event) -> Option<V> {
        match e {
            Event::PreRequest => self.pre_request,
            Event::PostRequest => self.post_request,
        }
    }

    /// The map as a mathematical map.
    pub open spec fn view(&self) -> Map<Event, V> {
        Map::new(|e: Event| self.slot(e) is Some, |e: Event| self.slot(e)->0)
    }

    /// A map that holds nothing.
    pub fn new() -> (m: Self)
        ensures
            m.view() == Map::<Event, V>::empty(),
            m.pre_request is None,
            m.post_request is None,
    {
        let m = EventMap { pre_request: None, post_request: None };
        assert(m.view() =~= Map::<Event, V>::empty());
        m
    }

    /// The value held for `e`, if any.
    pub fn get(&self, e: Event) -> (r: Option<&V>)
        ensures
            r is Some <==> self.slot(e) is Some,
            r matches Some(v) ==> *v == self.slot(e)->0,
    {
        match e {
            Event::PreRequest => self.pre_request.as_ref(),
            Event::PostRequest => self.post_request.as_ref(),
        }
    }

    /// Holds `v` for `e`, in place of what was held for it.
    pub fn insert(&mut self, e: Event, v: V)
        ensures
            final(self).view() == old(self).view().insert(e, v),
            forall|x: Event| #[trigger] final(self).slot(x) == if x == e {
                Some(v)
            } else {
                old(self).slot(x)
            },
    {
        match e {
            Event::PreRequest => {
                self.pre_request = Some(v);
            },
            Event::PostRequest => {
                self.post_request = Some(v);
            },
        }
        assert(self.view() =~= old(self).view().insert(e, v));
    }

    /// Holds each value of `other` for its event, in place of what was held for it.
    pub fn extend(&mut self, other: EventMap<V>)
        ensures
            final(self).view() == old(self).view().union_prefer_right(other.view()),
            forall|x: Event| #[trigger] final(self).slot(x) == if other.slot(x) is Some {
                other.slot(x)
            } else {
                old(self).slot(x)
            },
    {
        let EventMap { pre_request, post_request } = other;
        if let Some(v) = pre_request {
            self.pre_request = Some(v);
        }
        if let Some(v) = post_request {
            self.post_request = Some(v);
        }
        assert(self.view() =~= old(self).view().union_prefer_right(other.view()));
    }
}

/// What an enabled hook runs: its scripts; a disabled hook runs nothing.
pub open spec fn enabled_scripts(h: Option<HookEntry>) -> Option<Vec<String>> {
    match h {
        Some(entry) => if entry.enabled {
            Some(entry.scripts)
        } else {
            None
        },
        None => None,
    }
}

/// The scripts of each enabled hook of `hooks`, by event. The scripts are named as
/// the hooks name them, relative to the scripts directory.
pub fn enabled_hooks(hooks: EventMap<HookEntry>) -> (r: EventMap<Vec<String>>)
    ensures
        forall|e: Event| #[trigger] r.slot(e) == enabled_scripts(hooks.slot(e)),
{
    let EventMap { pre_request, post_request } = hooks;
    let pre = match pre_request {
        Some(h) => if h.enabled {
            Some(h.scripts)
        } else {
            None
        },
        None => None,
    };
    let post = match post_request {
        Some(h) => if h.enabled {
            Some(h.scripts)
        } else {
            None
        },
        None => None,
    };
    EventMap { pre_request: pre, post_request: post }
}

} // verus!
