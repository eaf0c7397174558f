//! What of a session is saved, how a saved session is restored, and the queue of
//! pending saves.
use vstd::prelude::*;
use crate::demo::is_demo_session;
use crate::model::{
    clamp, clamp_i32, AppFeedState, BusView, RememberedAppRouteState, SessionState, SessionView,
    StripView, GAIN_MAX, GAIN_MIN, GATE_MAX, UNITY,
};

verus! {

#[derive(Debug, PartialEq, Eq)]
pub struct PersistedApp {
    /// Level, in thousandths.
    pub level: i32,
    pub muted: bool,
}

#[derive(Debug, PartialEq, Eq)]
pub struct PersistedStrip {
    pub device_name: String,
    /// Gain, in thousandths of a dB.
    pub gain_db: i32,
    /// Gate amount, in thousandths.
    pub gate: i32,
    pub muted: bool,
    pub solo: bool,
    pub mono: bool,
    pub routes: Vec<bool>,
    pub apps: Vec<PersistedApp>,
}

/// The mathematical value of a [`PersistedStrip`].
#[verifier::ext_equal]
pub struct PersistedStripView {
    pub device_name: String,
    pub gain_db: i32,
    pub gate: i32,
    pub muted: bool,
    pub solo: bool,
    pub mono: bool,
    pub routes: Seq<bool>,
    pub apps: Seq<PersistedApp>,
}

impl View for PersistedStrip {
    type V = PersistedStripView;

    open spec fn view(&self) -> PersistedStripView {
        PersistedStripView {
            device_name: self.device_name,
            gain_db: self.gain_db,
            gate: self.gate,
            muted: self.muted,
            solo: self.solo,
            mono: self.mono,
            routes: self.routes@,
            apps: self.apps@,
        }
    }
}

#[derive(Debug, PartialEq, Eq)]
pub struct PersistedBus {
    pub destination_name: String,
    /// Gain, in thousandths of a dB.
    pub gain_db: i32,
    pub muted: bool,
}

#[derive(Debug, PartialEq, Eq)]
pub struct PersistedAppRoute {
    pub name: String,
    pub detail: String,
    pub target: String,
    pub icon_text: String,
    pub icon_color: String,
    /// Level, in thousandths.
    pub level: i32,
    pub muted: bool,
}

#[derive(Debug, PartialEq, Eq)]
pub struct PersistedSession {
    pub strips: Vec<PersistedStrip>,
    pub buses: Vec<PersistedBus>,
    pub remembered_app_routes: Vec<PersistedAppRoute>,
    pub quick_route_enabled: bool,
}

/// The mathematical value of a [`PersistedSession`].
#[verifier::ext_equal]
pub struct PersistedSessionView {
    pub strips: Seq<PersistedStripView>,
    pub buses: Seq<PersistedBus>,
    pub remembered_app_routes: Seq<PersistedAppRoute>,
    pub quick_route_enabled: bool,
}

impl View for PersistedSession {
    type V = PersistedSessionView;

    open spec fn view(&self) -> PersistedSessionView {
        PersistedSessionView {
            strips: self.strips@.map_values(|s: PersistedStrip| s@),
            buses: self.buses@,
            remembered_app_routes: self.remembered_app_routes@,
            quick_route_enabled: self.quick_route_enabled,
        }
    }
}

/// What is saved of a strip: its device, gain, gate, switches, routes and the
/// level and mute of each of its applications.
pub open spec fn persisted_strip(s: StripView) -> PersistedStripView {
    PersistedStripView {
        device_name: s.device_name,
        gain_db: s.gain_db,
        gate: s.gate,
        muted: s.muted,
        solo: s.solo,
        mono: s.mono,
        routes: s.routes.map_values(|r: crate::model::RouteState| r.enabled),
        apps: s.apps.map_values(|a: AppFeedState| PersistedApp { level: a.level, muted: a.muted }),
    }
}

/// What is saved of a bus: its device, gain and mute.
pub open spec fn persisted_bus(b: BusView) -> PersistedBus {
    PersistedBus { destination_name: b.destination_name, gain_db: b.gain_db, muted: b.muted }
}

/// What is saved of a remembered application route: all of it.
pub open spec fn persisted_route(r: RememberedAppRouteState) -> PersistedAppRoute {
    PersistedAppRoute {
        name: r.name,
        detail: r.detail,
        target: r.target,
        icon_text: r.icon_text,
        icon_color: r.icon_color,
        level: r.level,
        muted: r.muted,
    }
}

/// What is saved of a session.
pub open spec fn persisted_of(s: SessionView) -> PersistedSessionView {
    PersistedSessionView {
        strips: s.strips.map_values(|x: StripView| persisted_strip(x)),
        buses: s.buses.map_values(|b: BusView| persisted_bus(b)),
        remembered_app_routes: s.remembered_app_routes.map_values(|r: RememberedAppRouteState| persisted_route(r)),
        quick_route_enabled: s.quick_route_enabled,
    }
}

/// Strip `s` with saved values applied: device, gain and gate (limited to their
/// ranges), switches, the routes it has, and the level (limited to `0..=UNITY`)
/// and mute of the applications it has.
pub open spec fn strip_restored(s: StripView, p: PersistedStripView) -> StripView {
    StripView {
        device_name: p.device_name,
        gain_db: clamp(p.gain_db as int, GAIN_MIN as int, GAIN_MAX as int) as i32,
        gate: clamp(p.gate as int, 0, GATE_MAX as int) as i32,
        muted: p.muted,
        solo: p.solo,
        mono: p.mono,
        routes: Seq::new(
            s.routes.len(),
            |j: int|
                if j < p.routes.len() {
                    crate::model::RouteState { enabled: p.routes[j], ..s.routes[j] }
                } else {
                    s.routes[j]
                },
        ),
        apps: Seq::new(
            s.apps.len(),
            |j: int|
                if j < p.apps.len() {
                    AppFeedState {
                        level: clamp(p.apps[j].level as int, 0, UNITY as int) as i32,
                        muted: p.apps[j].muted,
                        ..s.apps[j]
                    }
                } else {
                    s.apps[j]
                },
        ),
        ..s
    }
}

/// Bus `b` with saved values applied.
pub open spec fn bus_restored(b: BusView, p: PersistedBus) -> BusView {
    BusView {
        destination_name: p.destination_name,
        gain_db: clamp(p.gain_db as int, GAIN_MIN as int, GAIN_MAX as int) as i32,
        muted: p.muted,
        ..b
    }
}

/// A saved application route as it is remembered again.
pub open spec fn route_restored(r: PersistedAppRoute) -> RememberedAppRouteState {
    RememberedAppRouteState {
        name: r.name,
        detail: r.detail,
        target: r.target,
        icon_text: r.icon_text,
        icon_color: r.icon_color,
        level: clamp(r.level as int, 0, UNITY as int) as i32,
        muted: r.muted,
    }
}

/// Session `s` with a saved session applied: each strip and bus that has a saved
/// counterpart takes its values, and the saved routes replace the remembered ones
/// unless none were saved.
pub open spec fn session_restored(s: SessionView, p: PersistedSessionView) -> SessionView {
    SessionView {
        strips: Seq::new(
            s.strips.len(),
            |i: int| if i < p.strips.len() { strip_restored(s.strips[i], p.strips[i]) } else { s.strips[i] },
        ),
        buses: Seq::new(
            s.buses.len(),
            |i: int| if i < p.buses.len() { bus_restored(s.buses[i], p.buses[i]) } else { s.buses[i] },
        ),
        remembered_app_routes: if p.remembered_app_routes.len() > 0 {
            p.remembered_app_routes.map_values(|r: PersistedAppRoute| route_restored(r))
        } else {
            s.remembered_app_routes
        },
        quick_route_enabled: p.quick_route_enabled,
        ..s
    }
}

fn persist_strip(s: &crate::model::StripState) -> (p: PersistedStrip)
    ensures
        p@ == persisted_strip(s@),
{
    let mut routes: Vec<bool> = Vec::new();
    let mut j: usize = 0;
    while j < s.routes.len()
        invariant
            j <= s.routes@.len(),
            routes@ == s.routes@.take(j as int).map_values(|r: crate::model::RouteState| r.enabled),
        decreases s.routes@.len() - j,
    {
        routes.push(s.routes[j].enabled);
        j = j + 1;
        assert(routes@ =~= s.routes@.take(j as int).map_values(|r: crate::model::RouteState| r.enabled));
    }
    assert(s.routes@.take(j as int) =~= s.routes@);
    let mut apps: Vec<PersistedApp> = Vec::new();
    let mut j: usize = 0;
    while j < s.apps.len()
        invariant
            j <= s.apps@.len(),
            apps@ == s.apps@.take(j as int).map_values(|a: AppFeedState| PersistedApp { level: a.level, muted: a.muted }),
        decreases s.apps@.len() - j,
    {
        apps.push(PersistedApp { level: s.apps[j].level, muted: s.apps[j].muted });
        j = j + 1;
        assert(apps@ =~= s.apps@.take(j as int).map_values(|a: AppFeedState| PersistedApp { level: a.level, muted: a.muted }));
    }
    assert(s.apps@.take(j as int) =~= s.apps@);
    let p = PersistedStrip {
        device_name: s.device_name.clone(),
        gain_db: s.gain_db,
        gate: s.gate,
        muted: s.muted,
        solo: s.solo,
        mono: s.mono,
        routes,
        apps,
    };
    assert(p@ =~= persisted_strip(s@));
    p
}

impl PersistedSession {
    /// What is saved of a session (see [`persisted_of`]).
    pub fn from_session(session: &SessionState) -> (p: PersistedSession)
        ensures
            p@ == persisted_of(session@),
    {
        let mut strips: Vec<PersistedStrip> = Vec::new();
        let mut i: usize = 0;
        while i < session.strips.len()
            invariant
                i <= session@.strips.len(),
                strips@.len() == i,
                forall|j: int| 0 <= j < i ==> (#[trigger] strips@[j])@ == persisted_strip(session@.strips[j]),
            decreases session@.strips.len() - i,
        {
            strips.push(persist_strip(&session.strips[i]));
            i = i + 1;
        }
        let mut buses: Vec<PersistedBus> = Vec::new();
        let mut i: usize = 0;
        while i < session.buses.len()
            invariant
                i <= session@.buses.len(),
                buses@ == session@.buses.take(i as int).map_values(|b: BusView| persisted_bus(b)),
            decreases session@.buses.len() - i,
        {
            let bus = &session.buses[i];
            buses.push(PersistedBus { destination_name: bus.destination_name.clone(), gain_db: bus.gain_db, muted: bus.muted });
            i = i + 1;
            assert(buses@ =~= session@.buses.take(i as int).map_values(|b: BusView| persisted_bus(b)));
        }
        assert(session@.buses.take(i as int) =~= session@.buses);
        let mut routes: Vec<PersistedAppRoute> = Vec::new();
        let mut i: usize = 0;
        while i < session.remembered_app_routes.len()
            invariant
                i <= session@.remembered_app_routes.len(),
                routes@ == session@.remembered_app_routes.take(i as int).map_values(|r: RememberedAppRouteState| persisted_route(r)),
            decreases session@.remembered_app_routes.len() - i,
        {
            let route = &session.remembered_app_routes[i];
            routes.push(PersistedAppRoute {
                name: route.name.clone(),
                detail: route.detail.clone(),
                target: route.target.clone(),
                icon_text: route.icon_text.clone(),
                icon_color: route.icon_color.clone(),
                level: route.level,
                muted: route.muted,
            });
            i = i + 1;
            assert(routes@ =~= session@.remembered_app_routes.take(i as int).map_values(|r: RememberedAppRouteState| persisted_route(r)));
        }
        assert(session@.remembered_app_routes.take(i as int) =~= session@.remembered_app_routes);
        let p = PersistedSession {
            strips,
            buses,
            remembered_app_routes: routes,
            quick_route_enabled: session.quick_route_enabled,
        };
        assert(p@.strips =~= persisted_of(session@).strips);
        p
    }
}

fn restore_strip(strip: &mut crate::model::StripState, saved: PersistedStrip)
    ensures
        final(strip)@ == strip_restored(old(strip)@, saved@),
{
    strip.device_name = saved.device_name;
    strip.gain_db = clamp_i32(saved.gain_db, GAIN_MIN, GAIN_MAX);
    strip.gate = clamp_i32(saved.gate, 0, GATE_MAX);
    strip.muted = saved.muted;
    strip.solo = saved.solo;
    strip.mono = saved.mono;
    let ghost before = strip@;
    let n = strip.routes.len();
    let mut j: usize = 0;
    while j < n
        invariant
            n == before.routes.len(),
            j <= n,
            strip@ == (StripView { routes: strip@.routes, ..before }),
            strip@.routes.len() == n,
            forall|k: int| 0 <= k < j ==> #[trigger] strip@.routes[k] == (if k < saved.routes@.len() {
                crate::model::RouteState { enabled: saved.routes@[k], ..before.routes[k] }
            } else {
                before.routes[k]
            }),
            forall|k: int| j <= k < n ==> #[trigger] strip@.routes[k] == before.routes[k],
        decreases n - j,
    {
        if j < saved.routes.len() {
            strip.routes[j].enabled = saved.routes[j];
        }
        j = j + 1;
    }
    let ghost before2 = strip@;
    let m = strip.apps.len();
    let mut j: usize = 0;
    while j < m
        invariant
            m == before2.apps.len(),
            j <= m,
            strip@ == (StripView { apps: strip@.apps, ..before2 }),
            strip@.apps.len() == m,
            forall|k: int| 0 <= k < j ==> #[trigger] strip@.apps[k] == (if k < saved.apps@.len() {
                AppFeedState {
                    level: clamp(saved.apps@[k].level as int, 0, UNITY as int) as i32,
                    muted: saved.apps@[k].muted,
                    ..before2.apps[k]
                }
            } else {
                before2.apps[k]
            }),
            forall|k: int| j <= k < m ==> #[trigger] strip@.apps[k] == before2.apps[k],
        decreases m - j,
    {
        if j < saved.apps.len() {
            strip.apps[j].level = clamp_i32(saved.apps[j].level, 0, UNITY);
            strip.apps[j].muted = saved.apps[j].muted;
        }
        j = j + 1;
    }
    assert(strip@.routes =~= strip_restored(old(strip)@, saved@).routes);
    assert(strip@.apps =~= strip_restored(old(strip)@, saved@).apps);
    assert(strip@ =~= strip_restored(old(strip)@, saved@));
}

fn restore_routes(saved: Vec<PersistedAppRoute>) -> (r: Vec<RememberedAppRouteState>)
    ensures
        r@ == saved@.map_values(|x: PersistedAppRoute| route_restored(x)),
{
    let mut r: Vec<RememberedAppRouteState> = Vec::new();
    let mut i: usize = 0;
    while i < saved.len()
        invariant
            i <= saved@.len(),
            r@ == saved@.take(i as int).map_values(|x: PersistedAppRoute| route_restored(x)),
        decreases saved@.len() - i,
    {
        let route = &saved[i];
        r.push(RememberedAppRouteState {
            name: route.name.clone(),
            detail: route.detail.clone(),
            target: route.target.clone(),
            icon_text: route.icon_text.clone(),
            icon_color: route.icon_color.clone(),
            level: clamp_i32(route.level, 0, UNITY),
            muted: route.muted,
        });
        i = i + 1;
        assert(r@ =~= saved@.take(i as int).map_values(|x: PersistedAppRoute| route_restored(x)));
    }
    assert(saved@.take(i as int) =~= saved@);
    r
}

/// Applies a saved session to `session` (see [`session_restored`]).
pub fn apply_persisted_session(session: &mut SessionState, persisted: PersistedSession)
    ensures
        final(session)@ == session_restored(old(session)@, persisted@),
{
    let ghost p = persisted@;
    let PersistedSession { strips, buses, remembered_app_routes, quick_route_enabled } = persisted;
    session.set_quick_route_enabled(quick_route_enabled);
    let ghost start = session@;
    let mut saved_strips = strips;
    let n = session.strips.len();
    let mut i: usize = 0;
    while i < n && saved_strips.len() > 0
        invariant
            n == session.strips@.len(),
            n == start.strips.len(),
            i <= n,
            i <= p.strips.len(),
            saved_strips@.len() == p.strips.len() - i,
            forall|k: int| 0 <= k < saved_strips@.len() ==> (#[trigger] saved_strips@[k])@ == p.strips[i + k],
            session@ == (SessionView { strips: session@.strips, ..start }),
            forall|j: int| 0 <= j < i ==> #[trigger] session@.strips[j] == strip_restored(start.strips[j], p.strips[j]),
            forall|j: int| i <= j < n ==> #[trigger] session@.strips[j] == start.strips[j],
        decreases n - i,
    {
        let ghost prev = session@;
        let saved = saved_strips.remove(0);
        assert(saved@ == p.strips[i as int]);
        assert(prev.strips[i as int] == start.strips[i as int]);
        assert(session.strips@[i as int]@ == prev.strips[i as int]);
        restore_strip(&mut session.strips[i], saved);
        assert(session@.strips[i as int] == session.strips@[i as int]@);
        assert(session@.strips =~= prev.strips.update(i as int, session@.strips[i as int]));
        i = i + 1;
    }
    let ghost mid = session@;
    assert(mid.strips =~= session_restored(start, p).strips);
    let mut saved_buses = buses;
    let b = session.buses.len();
    let mut i: usize = 0;
    while i < b && saved_buses.len() > 0
        invariant
            b == session.buses@.len(),
            b == start.buses.len(),
            i <= b,
            i <= p.buses.len(),
            saved_buses@ == p.buses.skip(i as int),
            session@ == (SessionView { buses: session@.buses, ..mid }),
            forall|j: int| 0 <= j < i ==> #[trigger] session@.buses[j] == bus_restored(start.buses[j], p.buses[j]),
            forall|j: int| i <= j < b ==> #[trigger] session@.buses[j] == start.buses[j],
        decreases b - i,
    {
        let ghost prev = session@;
        let saved = saved_buses.remove(0);
        assert(saved_buses@ =~= p.buses.skip(i + 1));
        assert(saved == p.buses[i as int]);
        assert(prev.buses[i as int] == start.buses[i as int]);
        session.buses[i].destination_name = saved.destination_name;
        session.buses[i].gain_db = clamp_i32(saved.gain_db, GAIN_MIN, GAIN_MAX);
        session.buses[i].muted = saved.muted;
        assert(session@.buses =~= prev.buses.update(i as int, session@.buses[i as int]));
        assert(session@.buses[i as int] =~= bus_restored(start.buses[i as int], p.buses[i as int]));
        i = i + 1;
    }
    assert(session@.buses =~= session_restored(start, p).buses);
    if remembered_app_routes.len() > 0 {
        session.set_remembered_app_routes(restore_routes(remembered_app_routes));
    }
    assert(session@ =~= session_restored(old(session)@, p));
}

/// The session that a saved session loads as: the demonstration session with the
/// saved values applied; nothing when nothing was saved.
pub fn load_session(saved: Option<PersistedSession>) -> (r: Option<SessionState>)
    ensures
        r.is_some() == saved.is_some(),
        r.is_some() ==> exists|d: SessionView| #[trigger] is_demo_session(d)
            && r.unwrap()@ == session_restored(d, saved.unwrap()@),
{
    match saved {
        Some(persisted) => {
            let mut session = SessionState::demo();
            let ghost d = session@;
            apply_persisted_session(&mut session, persisted);
            assert(is_demo_session(d));
            Some(session)
        },
        None => None,
    }
}

/// Saves that are waiting to be written. Saving replaces what is waiting, so
/// only the latest session is written.
pub struct SaveQueue {
    pending: Option<PersistedSession>,
}

/// What is waiting in a queue, by value.
pub open spec fn pending_view(p: Option<PersistedSession>) -> Option<PersistedSessionView> {
    match p {
        Some(x) => Some(x@),
        None => None,
    }
}

impl View for SaveQueue {
    type V = Option<PersistedSessionView>;

    closed spec fn view(&self) -> Option<PersistedSessionView> {
        pending_view(self.pending)
    }
}

impl SaveQueue {
    /// A queue with nothing waiting.
    pub fn new() -> (q: SaveQueue)
        ensures
            q@.is_none(),
    {
        SaveQueue { pending: None }
    }

    /// Puts a save in the queue, in place of whatever was waiting.
    pub fn submit(&mut self, persisted: PersistedSession)
        ensures
            final(self)@ == queue_after_submit(old(self)@, persisted@),
    {
        self.pending = Some(persisted);
    }

    /// Takes the save that is waiting, leaving nothing.
    pub fn take_pending(&mut self) -> (p: Option<PersistedSession>)
        ensures
            (pending_view(p), final(self)@) == queue_flushed(old(self)@),
    {
        self.pending.take()
    }
}

/// Queues a save of `session`: what is saved of it replaces whatever was waiting.
pub fn save_session_async(queue: &mut SaveQueue, session: &SessionState)
    ensures
        final(queue)@ == queue_after_submit(old(queue)@, persisted_of(session@)),
{
    queue.submit(PersistedSession::from_session(session));
}

/// The save that must be written now, so that nothing queued is lost: whatever was
/// waiting, which leaves the queue.
pub fn flush_session_saves(queue: &mut SaveQueue) -> (write: Option<PersistedSession>)
    ensures
        (pending_view(write), final(queue)@) == queue_flushed(old(queue)@),
{
    queue.take_pending()
}

/// Every value that the session limits to a range lies in it: strip and bus gains,
/// strip gates, and the levels of strip applications and remembered routes.
pub open spec fn values_in_range(s: SessionView) -> bool {
    &&& forall|i: int| 0 <= i < s.strips.len() ==> {
        let x = #[trigger] s.strips[i];
        &&& GAIN_MIN <= x.gain_db <= GAIN_MAX
        &&& 0 <= x.gate <= GATE_MAX
        &&& forall|j: int| 0 <= j < x.apps.len() ==> 0 <= (#[trigger] x.apps[j]).level <= UNITY
    }
    &&& forall|i: int| 0 <= i < s.buses.len() ==> GAIN_MIN <= (#[trigger] s.buses[i]).gain_db <= GAIN_MAX
    &&& forall|i: int| 0 <= i < s.remembered_app_routes.len() ==> 0 <= (#[trigger] s.remembered_app_routes[i]).level <= UNITY
}

/// Restoring a session from its own save gives the session back, when its values
/// lie in their ranges.
pub proof fn law_restore_own_save(s: SessionView)
    requires
        values_in_range(s),
    ensures
        session_restored(s, persisted_of(s)) == s,
{
    let p = persisted_of(s);
    let r = session_restored(s, p);
    assert forall|i: int| 0 <= i < s.strips.len() implies #[trigger] r.strips[i] == s.strips[i] by {
        let x = s.strips[i];
        assert(r.strips[i].routes =~= x.routes);
        assert forall|j: int| 0 <= j < x.apps.len() implies #[trigger] r.strips[i].apps[j] == x.apps[j] by {
            assert(0 <= x.apps[j].level <= UNITY);
        }
        assert(r.strips[i].apps =~= x.apps);
        assert(r.strips[i] =~= x);
    }
    assert(r.strips =~= s.strips);
    assert forall|i: int| 0 <= i < s.buses.len() implies #[trigger] r.buses[i] == s.buses[i] by {
        assert(r.buses[i] =~= s.buses[i]);
    }
    assert(r.buses =~= s.buses);
    if s.remembered_app_routes.len() > 0 {
        assert forall|i: int| 0 <= i < s.remembered_app_routes.len() implies #[trigger] r.remembered_app_routes[i] == s.remembered_app_routes[i] by {
            assert(0 <= s.remembered_app_routes[i].level <= UNITY);
        }
        assert(r.remembered_app_routes =~= s.remembered_app_routes);
    }
    assert(r =~= s);
}

/// Restoring a save onto any session, the one running at start-up included,
/// gives each strip and bus that both have the saved values: device, gain, gate,
/// mute, solo and mono switches, each route's switch, and each application's
/// level and mute; it gives the saved quick-route switch, and the saved remembered
/// routes when there are any. What is not saved (titles, kinds, route names, the
/// strips and buses beyond the save) stays as the session had it, and the session
/// keeps its number of strips and buses.
pub proof fn law_restore_gives_saved_values(d: SessionView, s: SessionView)
    requires
        values_in_range(s),
    ensures
        ({
            let r = session_restored(d, persisted_of(s));
            &&& r.strips.len() == d.strips.len()
            &&& r.buses.len() == d.buses.len()
            &&& r.quick_route_enabled == s.quick_route_enabled
            &&& s.remembered_app_routes.len() > 0 ==> r.remembered_app_routes == s.remembered_app_routes
            &&& s.remembered_app_routes.len() == 0 ==> r.remembered_app_routes == d.remembered_app_routes
            &&& forall|i: int| 0 <= i < d.strips.len() && i < s.strips.len() ==> {
                let x = #[trigger] r.strips[i];
                &&& x.device_name == s.strips[i].device_name
                &&& x.gain_db == s.strips[i].gain_db
                &&& x.gate == s.strips[i].gate
                &&& x.muted == s.strips[i].muted
                &&& x.solo == s.strips[i].solo
                &&& x.mono == s.strips[i].mono
                &&& x.title == d.strips[i].title
                &&& x.endpoint_kind == d.strips[i].endpoint_kind
                &&& x.routes.len() == d.strips[i].routes.len()
                &&& x.apps.len() == d.strips[i].apps.len()
                &&& forall|j: int| 0 <= j < x.routes.len() && j < s.strips[i].routes.len() ==>
                    (#[trigger] x.routes[j]).enabled == s.strips[i].routes[j].enabled
                &&& forall|j: int| 0 <= j < x.apps.len() && j < s.strips[i].apps.len() ==> {
                    &&& (#[trigger] x.apps[j]).level == s.strips[i].apps[j].level
                    &&& x.apps[j].muted == s.strips[i].apps[j].muted
                    &&& x.apps[j].id == d.strips[i].apps[j].id
                }
            }
            &&& forall|i: int| s.strips.len() <= i < d.strips.len() ==> #[trigger] r.strips[i] == d.strips[i]
            &&& forall|i: int| 0 <= i < d.buses.len() && i < s.buses.len() ==> {
                let b = #[trigger] r.buses[i];
                &&& b.destination_name == s.buses[i].destination_name
                &&& b.gain_db == s.buses[i].gain_db
                &&& b.muted == s.buses[i].muted
            }
            &&& forall|i: int| s.buses.len() <= i < d.buses.len() ==> #[trigger] r.buses[i] == d.buses[i]
        }),
{
    let p = persisted_of(s);
    let r = session_restored(d, p);
    assert forall|i: int| 0 <= i < d.strips.len() && i < s.strips.len() implies {
        let x = #[trigger] r.strips[i];
        &&& forall|j: int| 0 <= j < x.apps.len() && j < s.strips[i].apps.len() ==> {
            &&& (#[trigger] x.apps[j]).level == s.strips[i].apps[j].level
            &&& x.apps[j].muted == s.strips[i].apps[j].muted
            &&& x.apps[j].id == d.strips[i].apps[j].id
        }
    } by {
        let x = r.strips[i];
        assert forall|j: int| 0 <= j < x.apps.len() && j < s.strips[i].apps.len() implies
            (#[trigger] x.apps[j]).level == s.strips[i].apps[j].level by {
            assert(0 <= s.strips[i].apps[j].level <= UNITY);
        }
    }
    if s.remembered_app_routes.len() > 0 {
        assert forall|i: int| 0 <= i < s.remembered_app_routes.len() implies #[trigger] r.remembered_app_routes[i] == s.remembered_app_routes[i] by {
            assert(0 <= s.remembered_app_routes[i].level <= UNITY);
        }
        assert(r.remembered_app_routes =~= s.remembered_app_routes);
    }
}

/// The queue after a save is submitted to it.
pub open spec fn queue_after_submit(q: Option<PersistedSessionView>, p: PersistedSessionView) -> Option<PersistedSessionView> {
    Some(p)
}

/// What a flush writes, and the queue after it.
pub open spec fn queue_flushed(q: Option<PersistedSessionView>) -> (Option<PersistedSessionView>, Option<PersistedSessionView>) {
    (q, None)
}

/// Of two saves queued one after the other, a flush writes the second, and a
/// flush right after writes nothing.
pub proof fn law_flush_writes_latest_save(
    q: Option<PersistedSessionView>,
    first: PersistedSessionView,
    second: PersistedSessionView,
)
    ensures
        queue_flushed(queue_after_submit(queue_after_submit(q, first), second)).0 == Some(second),
        queue_flushed(queue_flushed(queue_after_submit(queue_after_submit(q, first), second)).1).0.is_none(),
{
}

} // verus!
