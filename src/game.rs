use vstd::prelude::*;
use crate::actor::{ActorInfo, ActorView, SpriteWithOffset, MovementCollision, health_after, move_motions, move_result, overlapping, views};
use crate::map::TileMap;

verus! {

pub struct SetCameraShakeEvent {
    pub x: isize,
    pub y: isize,
}

pub struct SetScrollEvent {
    pub x: isize,
    pub y: isize,
}

/// A new map and the actors that start on it.
pub struct MapChangeEvent<A> {
    pub map: TileMap,
    pub actors: Vec<ActorInfo>,
    pub behaviors: Vec<A>,
}

/// A change to the world asked for during a tick; it takes effect at the
/// start of the next tick, so no actor sees the world change under it.
pub enum PendingEvent<A> {
    MapChange(MapChangeEvent<A>),
    UnloadMap,
    AddActor(ActorInfo, A),
    /// an actor that stays on when the map changes
    AddPersistentActor(ActorInfo, A),
    /// every actor stops being persistent, and hears of it
    ClearPersistentActors,
    /// a change of health of the actor at a place in the list (a place
    /// past the end is ignored); it hears of its death as `adjust_health` says
    AdjustHealth(usize, i32),
    /// the actor, by its place in the list, that input goes to
    SetControlledActor(Option<usize>),
    SetCameraShake(SetCameraShakeEvent),
    SetScroll(SetScrollEvent),
    FadeOut,
    FadeIn,
}

/// What a hook leaves behind: the behaviour, the actor's state and the queue
/// of deferred changes.
pub struct Hooked<A> {
    pub behavior: A,
    pub me: ActorView,
    pub events: Seq<PendingEvent<A>>,
}

/// The behaviour of one kind of actor. Each hook gets the actor's own state,
/// the map, the actor list (where the actor's own entry is not current while
/// it is being ticked), and the queue for deferred changes to the world.
/// What each hook does is named by a spec function of the same kind, so that
/// a turn of the simulation can be stated in terms of them; an
/// implementation states what its hooks do by giving those functions, which
/// are left unspecified otherwise.
pub trait Actor: Sized {
    /// What `init` makes of the behaviour, the actor and the queue.
    open spec fn spec_init(&self, me: ActorView, map: Option<TileMap>, actors: Seq<ActorView>, events: Seq<PendingEvent<Self>>) -> Hooked<Self> {
        vstd::pervasive::arbitrary()
    }

    /// Called once when the actor starts on a freshly loaded map.
    fn init(&mut self, me: &mut ActorInfo, map: &Option<TileMap>, actors: &Vec<ActorInfo>, events: &mut Vec<PendingEvent<Self>>)
        requires
            old(me).wf(),
        ensures
            final(me).wf(),
            (Hooked { behavior: *final(self), me: final(me)@, events: final(events)@ })
                == old(self).spec_init(old(me)@, *map, views(actors@), old(events)@),
    ;

    /// What `update` makes of the behaviour, the actor and the queue.
    open spec fn spec_update(&self, me: ActorView, map: Option<TileMap>, actors: Seq<ActorView>, events: Seq<PendingEvent<Self>>) -> Hooked<Self> {
        vstd::pervasive::arbitrary()
    }

    /// Gameplay logic, run every tick before the actor moves.
    fn update(&mut self, me: &mut ActorInfo, map: &Option<TileMap>, actors: &Vec<ActorInfo>, events: &mut Vec<PendingEvent<Self>>)
        requires
            old(me).wf(),
        ensures
            final(me).wf(),
            (Hooked { behavior: *final(self), me: final(me)@, events: final(events)@ })
                == old(self).spec_update(old(me)@, *map, views(actors@), old(events)@),
    ;

    /// What `before_move` makes of the behaviour, the actor and the queue.
    open spec fn spec_before_move(&self, me: ActorView, map: Option<TileMap>, actors: Seq<ActorView>, events: Seq<PendingEvent<Self>>) -> Hooked<Self> {
        vstd::pervasive::arbitrary()
    }

    /// Runs just before the actor moves.
    fn before_move(&mut self, me: &mut ActorInfo, map: &Option<TileMap>, actors: &Vec<ActorInfo>, events: &mut Vec<PendingEvent<Self>>)
        requires
            old(me).wf(),
        ensures
            final(me).wf(),
            (Hooked { behavior: *final(self), me: final(me)@, events: final(events)@ })
                == old(self).spec_before_move(old(me)@, *map, views(actors@), old(events)@),
    ;

    /// What `after_move` makes of the behaviour, the actor and the queue.
    open spec fn spec_after_move(&self, me: ActorView, map: Option<TileMap>, actors: Seq<ActorView>, events: Seq<PendingEvent<Self>>) -> Hooked<Self> {
        vstd::pervasive::arbitrary()
    }

    /// Runs once the actor has moved and heard of its collisions.
    fn after_move(&mut self, me: &mut ActorInfo, map: &Option<TileMap>, actors: &Vec<ActorInfo>, events: &mut Vec<PendingEvent<Self>>)
        requires
            old(me).wf(),
        ensures
            final(me).wf(),
            (Hooked { behavior: *final(self), me: final(me)@, events: final(events)@ })
                == old(self).spec_after_move(old(me)@, *map, views(actors@), old(events)@),
    ;

    /// What `on_collide_with_world` makes of the behaviour, the actor and the queue.
    open spec fn spec_collide_with_world(&self, me: ActorView, map: Option<TileMap>, actors: Seq<ActorView>, events: Seq<PendingEvent<Self>>) -> Hooked<Self> {
        vstd::pervasive::arbitrary()
    }

    /// The move was cut short by the map.
    fn on_collide_with_world(&mut self, me: &mut ActorInfo, map: &Option<TileMap>, actors: &Vec<ActorInfo>, events: &mut Vec<PendingEvent<Self>>)
        requires
            old(me).wf(),
        ensures
            final(me).wf(),
            (Hooked { behavior: *final(self), me: final(me)@, events: final(events)@ })
                == old(self).spec_collide_with_world(old(me)@, *map, views(actors@), old(events)@),
    ;

    /// What `on_collide_with_actor` makes of the behaviour, the actor and the queue.
    open spec fn spec_collide_with_actor(&self, me: ActorView, other: usize, map: Option<TileMap>, actors: Seq<ActorView>, events: Seq<PendingEvent<Self>>) -> Hooked<Self> {
        vstd::pervasive::arbitrary()
    }

    /// The move was cut short by actor `other`, or ended overlapping it.
    fn on_collide_with_actor(&mut self, me: &mut ActorInfo, other: usize, map: &Option<TileMap>, actors: &Vec<ActorInfo>, events: &mut Vec<PendingEvent<Self>>)
        requires
            old(me).wf(),
        ensures
            final(me).wf(),
            (Hooked { behavior: *final(self), me: final(me)@, events: final(events)@ })
                == old(self).spec_collide_with_actor(old(me)@, other, *map, views(actors@), old(events)@),
    ;

    /// What `on_death` makes of the behaviour, the actor and the queue.
    open spec fn spec_death(&self, me: ActorView, map: Option<TileMap>, actors: Seq<ActorView>, events: Seq<PendingEvent<Self>>) -> Hooked<Self> {
        vstd::pervasive::arbitrary()
    }

    /// Health has just dropped to zero or below.
    fn on_death(&mut self, me: &mut ActorInfo, map: &Option<TileMap>, actors: &Vec<ActorInfo>, events: &mut Vec<PendingEvent<Self>>)
        requires
            old(me).wf(),
        ensures
            final(me).wf(),
            (Hooked { behavior: *final(self), me: final(me)@, events: final(events)@ })
                == old(self).spec_death(old(me)@, *map, views(actors@), old(events)@),
    ;

    /// What `on_persistent_actor_removed` makes of the behaviour, the actor and the queue.
    open spec fn spec_persistent_removed(&self, me: ActorView, map: Option<TileMap>, actors: Seq<ActorView>, events: Seq<PendingEvent<Self>>) -> Hooked<Self> {
        vstd::pervasive::arbitrary()
    }

    /// The actor has stopped being persistent.
    fn on_persistent_actor_removed(&mut self, me: &mut ActorInfo, map: &Option<TileMap>, actors: &Vec<ActorInfo>, events: &mut Vec<PendingEvent<Self>>)
        requires
            old(me).wf(),
        ensures
            final(me).wf(),
            (Hooked { behavior: *final(self), me: final(me)@, events: final(events)@ })
                == old(self).spec_persistent_removed(old(me)@, *map, views(actors@), old(events)@),
    ;

    /// What `on_button_down` makes of the behaviour, the actor and the queue.
    open spec fn spec_button_down(&self, me: ActorView, name: Seq<char>, map: Option<TileMap>, actors: Seq<ActorView>, events: Seq<PendingEvent<Self>>) -> Hooked<Self> {
        vstd::pervasive::arbitrary()
    }

    /// The button bound to `name` was pressed while this actor is controlled.
    fn on_button_down(&mut self, me: &mut ActorInfo, name: &str, map: &Option<TileMap>, actors: &Vec<ActorInfo>, events: &mut Vec<PendingEvent<Self>>)
        requires
            old(me).wf(),
        ensures
            final(me).wf(),
            (Hooked { behavior: *final(self), me: final(me)@, events: final(events)@ })
                == old(self).spec_button_down(old(me)@, name@, *map, views(actors@), old(events)@),
    ;

    /// What `on_button_up` makes of the behaviour, the actor and the queue.
    open spec fn spec_button_up(&self, me: ActorView, name: Seq<char>, map: Option<TileMap>, actors: Seq<ActorView>, events: Seq<PendingEvent<Self>>) -> Hooked<Self> {
        vstd::pervasive::arbitrary()
    }

    /// The button bound to `name` was released while this actor is controlled.
    fn on_button_up(&mut self, me: &mut ActorInfo, name: &str, map: &Option<TileMap>, actors: &Vec<ActorInfo>, events: &mut Vec<PendingEvent<Self>>)
        requires
            old(me).wf(),
        ensures
            final(me).wf(),
            (Hooked { behavior: *final(self), me: final(me)@, events: final(events)@ })
                == old(self).spec_button_up(old(me)@, name@, *map, views(actors@), old(events)@),
    ;
}

/// The game around the simulation; its hook runs once per frame, after the
/// queued changes are applied and before the actors' turns.
pub trait Game {
    fn tick(&mut self) {
    }
}

/// A game with no per-frame logic of its own.
impl Game for () {
}

/// Positions, in the actor list, of the actors not marked destroyed, in order.
pub open spec fn survivors(actors: Seq<ActorInfo>, n: nat) -> Seq<usize>
    decreases n,
{
    if n == 0 {
        Seq::empty()
    } else if actors[n - 1].destroyed {
        survivors(actors, (n - 1) as nat)
    } else {
        survivors(actors, (n - 1) as nat).push((n - 1) as usize)
    }
}

/// The simulation: the map, the live actors in spawn order (state and
/// behaviour side by side), and the changes queued for the next tick.
pub struct GameState<A> {
    pub map: Option<TileMap>,
    pub actors: Vec<ActorInfo>,
    pub behaviors: Vec<A>,
    pub pending_events: Vec<PendingEvent<A>>,
    pub controlled_actor: Option<usize>,
    /// for each actor of the list, whether it stays on across map changes
    pub persistent: Vec<bool>,
    /// persistent actors waiting, with no map loaded, for the next map
    pub stashed_actors: Vec<ActorInfo>,
    pub stashed_behaviors: Vec<A>,
    pub paused: bool,
    pub frame: usize,
    pub camera_shake_x: isize,
    pub camera_shake_y: isize,
    pub scroll_x: isize,
    pub scroll_y: isize,
    pub fade_alpha: u8,
    pub target_fade_alpha: u8,
}

impl<A: Actor> GameState<A> {
    pub open spec fn wf(&self) -> bool {
        &&& self.actors@.len() == self.behaviors@.len()
        &&& forall|i: int| 0 <= i < self.actors@.len() ==> (#[trigger] self.actors@[i]).wf()
        &&& (self.map matches Some(m) ==> m.wf())
        &&& (self.controlled_actor matches Some(c) ==> c < self.actors@.len())
        &&& self.persistent@.len() == self.actors@.len()
        &&& self.stashed_actors@.len() == self.stashed_behaviors@.len()
        &&& forall|i: int| 0 <= i < self.stashed_actors@.len() ==> (#[trigger] self.stashed_actors@[i]).wf()
    }

    /// An empty world with no map.
    pub fn new() -> (r: GameState<A>)
        ensures
            r.wf(),
            r.map is None,
            r.actors@.len() == 0,
            r.pending_events@.len() == 0,
            !r.paused,
            r.frame == 0,
    {
        GameState {
            map: None,
            actors: Vec::new(),
            behaviors: Vec::new(),
            pending_events: Vec::new(),
            controlled_actor: None,
            persistent: Vec::new(),
            stashed_actors: Vec::new(),
            stashed_behaviors: Vec::new(),
            paused: false,
            frame: 0,
            camera_shake_x: 0,
            camera_shake_y: 0,
            scroll_x: 0,
            scroll_y: 0,
            fade_alpha: 0,
            target_fade_alpha: 0,
        }
    }

    pub fn pause(&mut self)
        ensures
            final(self).paused,
            final(self).actors == old(self).actors,
            final(self).behaviors == old(self).behaviors,
            final(self).map == old(self).map,
    {
        self.paused = true;
    }

    pub fn resume(&mut self)
        ensures
            !final(self).paused,
            final(self).actors == old(self).actors,
            final(self).behaviors == old(self).behaviors,
            final(self).map == old(self).map,
    {
        self.paused = false;
    }

    pub fn is_paused(&self) -> (r: bool)
        ensures
            r == self.paused,
    {
        self.paused
    }

    /// Queues an actor to join the world at the start of the next tick.
    pub fn add_actor(&mut self, info: ActorInfo, behavior: A)
        ensures
            final(self).pending_events@ == old(self).pending_events@.push(PendingEvent::AddActor(info, behavior)),
            final(self).actors == old(self).actors,
            final(self).behaviors == old(self).behaviors,
            final(self).map == old(self).map,
            final(self).paused == old(self).paused,
    {
        self.pending_events.push(PendingEvent::AddActor(info, behavior));
    }

    /// Queues an actor that joins at the start of the next tick and stays on
    /// when the map changes.
    pub fn add_persistent_actor(&mut self, info: ActorInfo, behavior: A)
        ensures
            final(self).pending_events@ == old(self).pending_events@.push(PendingEvent::AddPersistentActor(info, behavior)),
            final(self).actors == old(self).actors,
            final(self).behaviors == old(self).behaviors,
            final(self).map == old(self).map,
            final(self).paused == old(self).paused,
    {
        self.pending_events.push(PendingEvent::AddPersistentActor(info, behavior));
    }

    /// Queues the end of every actor's persistence.
    pub fn clear_persistent_actors(&mut self)
        ensures
            final(self).pending_events@ == old(self).pending_events@.push(PendingEvent::ClearPersistentActors),
            final(self).actors == old(self).actors,
            final(self).behaviors == old(self).behaviors,
            final(self).map == old(self).map,
            final(self).paused == old(self).paused,
    {
        self.pending_events.push(PendingEvent::ClearPersistentActors);
    }

    /// Queues a change of map at the start of the next tick.
    pub fn load_map(&mut self, map: TileMap, actors: Vec<ActorInfo>, behaviors: Vec<A>)
        ensures
            final(self).pending_events@ == old(self).pending_events@.push(PendingEvent::MapChange(MapChangeEvent { map, actors, behaviors })),
            final(self).actors == old(self).actors,
            final(self).behaviors == old(self).behaviors,
            final(self).map == old(self).map,
            final(self).paused == old(self).paused,
    {
        self.pending_events.push(PendingEvent::MapChange(MapChangeEvent { map, actors, behaviors }));
    }

    /// Queues the removal of the map and of every actor.
    pub fn unload_map(&mut self)
        ensures
            final(self).pending_events@ == old(self).pending_events@.push(PendingEvent::UnloadMap),
            final(self).actors == old(self).actors,
            final(self).behaviors == old(self).behaviors,
            final(self).map == old(self).map,
            final(self).paused == old(self).paused,
    {
        self.pending_events.push(PendingEvent::UnloadMap);
    }
}

/// Only entry `i` of `after` may differ from `before`, and it stays valid.
pub open spec fn only_entry_changed(before: Seq<ActorInfo>, after: Seq<ActorInfo>, i: int) -> bool {
    &&& after.len() == before.len()
    &&& after[i].wf()
    &&& forall|j: int| 0 <= j < before.len() && j != i ==> #[trigger] after[j] == before[j]
}

/// Survivors depend on the destroyed marks alone.
pub proof fn lemma_survivors_flags(a: Seq<ActorInfo>, b: Seq<ActorInfo>, n: nat)
    requires
        n <= a.len(),
        n <= b.len(),
        forall|j: int| 0 <= j < n ==> (#[trigger] a[j]).destroyed == b[j].destroyed,
    ensures
        survivors(a, n) == survivors(b, n),
    decreases n,
{
    if n > 0 {
        lemma_survivors_flags(a, b, (n - 1) as nat);
    }
}

pub proof fn lemma_survivors_bounded(a: Seq<ActorInfo>, n: nat)
    requires
        n <= a.len(),
    ensures
        forall|k: int| 0 <= k < survivors(a, n).len() ==> 0 <= #[trigger] survivors(a, n)[k] < n,
        survivors(a, n).len() <= n,
    decreases n,
{
    if n > 0 {
        lemma_survivors_bounded(a, (n - 1) as nat);
    }
}

/// The entries of `all` at the positions `at`, in that order.
pub open spec fn kept_of<T>(all: Seq<T>, at: Seq<usize>) -> Seq<T> {
    at.map_values(|i: usize| all[i as int])
}

/// Entries past the positions taken do not matter.
pub proof fn lemma_kept_of_extend<T>(all: Seq<T>, extra: T, at: Seq<usize>)
    requires
        forall|q: int| 0 <= q < at.len() ==> (#[trigger] at[q]) < all.len(),
    ensures
        kept_of(all.push(extra), at) == kept_of(all, at),
{
    assert(kept_of(all.push(extra), at) =~= kept_of(all, at));
}

/// One more actor of the list: its entry is taken when it survives.
pub proof fn lemma_kept_of_step<T>(all: Seq<T>, actors: Seq<ActorInfo>, i: nat)
    requires
        i < actors.len(),
        i < all.len(),
        i <= usize::MAX,
    ensures
        kept_of(all, survivors(actors, i + 1)) == if actors[i as int].destroyed {
            kept_of(all, survivors(actors, i))
        } else {
            kept_of(all, survivors(actors, i)).push(all[i as int])
        },
{
    assert(survivors(actors, i + 1) == if actors[i as int].destroyed {
        survivors(actors, i)
    } else {
        survivors(actors, i).push(i as usize)
    });
    if !actors[i as int].destroyed {
        assert(kept_of(all, survivors(actors, i + 1)) =~= kept_of(all, survivors(actors, i)).push(all[i as int]));
    }
}

/// A longer prefix has at least as many survivors.
pub proof fn lemma_survivors_grow(a: Seq<ActorInfo>, m: nat, n: nat)
    requires
        m <= n <= a.len(),
    ensures
        survivors(a, m).len() <= survivors(a, n).len(),
    decreases n,
{
    if m < n {
        lemma_survivors_grow(a, m, (n - 1) as nat);
    }
}

/// The actor list, behaviours and queue while a tick's turns go on.
pub struct Turns<A> {
    pub list: Seq<ActorView>,
    pub behaviors: Seq<A>,
    pub events: Seq<PendingEvent<A>>,
}

/// An actor with every attached animation moved on by one frame.
pub open spec fn advanced(v: ActorView) -> ActorView {
    ActorView {
        sprites: v.sprites.map_values(|s: SpriteWithOffset| SpriteWithOffset {
            animation_frame: (if s.animation_frame == usize::MAX { 0 } else { s.animation_frame + 1 }) as usize,
            ..s
        }),
        ..v
    }
}

/// The first `n` turns of a tick, in list order: an actor marked destroyed
/// when its turn comes is passed over; any other takes its turn, seeing the
/// list as the earlier turns left it.
pub open spec fn turns<A: Actor>(start: Turns<A>, map: Option<TileMap>, n: nat) -> Turns<A>
    decreases n,
{
    if n == 0 {
        start
    } else {
        let p = turns(start, map, (n - 1) as nat);
        let i = n - 1;
        if p.list[i].destroyed {
            p
        } else {
            let r = turn(p.behaviors[i], p.list[i], map, p.list, i, p.events);
            Turns { list: p.list.update(i, r.me), behaviors: p.behaviors.update(i, r.behavior), events: r.events }
        }
    }
}

/// Where a tick's turns start: every actor's animations moved on.
pub open spec fn tick_start<A>(g: GameState<A>) -> Turns<A> {
    Turns {
        list: views(g.actors@).map_values(|v: ActorView| advanced(v)),
        behaviors: g.behaviors@,
        events: g.pending_events@,
    }
}

/// `f` is `g` after a tick's turns: the actors not marked destroyed when the
/// tick began, in list order, each as its own turn left it, with their
/// behaviours, and the queue as the turns left it.
pub open spec fn ticked<A: Actor>(g: GameState<A>, f: GameState<A>) -> bool {
    let n = g.actors@.len();
    let t = turns(tick_start(g), g.map, n as nat);
    let surv = survivors(g.actors@, n as nat);
    &&& views(f.actors@) == kept_of(t.list, surv)
    &&& f.behaviors@ == kept_of(t.behaviors, surv)
    &&& f.pending_events@ == t.events
}

/// Whether a queued change runs hooks while it is applied: a new map runs
/// `init`, the end of persistence runs `on_persistent_actor_removed`, a
/// change of health may run `on_death`.
pub open spec fn hooks_run<A>(events: Seq<PendingEvent<A>>) -> bool {
    exists|k: int| 0 <= k < events.len() && runs_hooks(#[trigger] events[k])
}

pub open spec fn runs_hooks<A>(e: PendingEvent<A>) -> bool {
    e is MapChange || e is ClearPersistentActors || e is AdjustHealth
}

/// Taking entries commutes with taking views.
pub proof fn lemma_views_kept(all: Seq<ActorInfo>, at: Seq<usize>)
    requires
        forall|q: int| 0 <= q < at.len() ==> (#[trigger] at[q]) < all.len(),
    ensures
        views(kept_of(all, at)) == kept_of(views(all), at),
{
    assert(views(kept_of(all, at)) =~= kept_of(views(all), at));
}

/// `on_collide_with_actor` for each actor of `others`, in order, after `r`.
pub open spec fn collide_all<A: Actor>(r: Hooked<A>, others: Seq<usize>, n: nat, map: Option<TileMap>, list: Seq<ActorView>) -> Hooked<A>
    decreases n,
{
    if n == 0 {
        r
    } else {
        let p = collide_all(r, others, (n - 1) as nat, map, list);
        p.behavior.spec_collide_with_actor(p.me, others[n - 1], map, list, p.events)
    }
}

/// One actor's turn, for actor `i` of `list` with behaviour `b`, starting
/// from state `me`: `update`, `before_move`, the move, the hook for what
/// stopped it if anything, `on_collide_with_actor` for every actor it then
/// overlaps, in list order, and `after_move`. Every hook runs whether or not
/// the actor has marked itself destroyed meanwhile.
pub open spec fn turn<A: Actor>(b: A, me: ActorView, map: Option<TileMap>, list: Seq<ActorView>, i: int, events: Seq<PendingEvent<A>>) -> Hooked<A> {
    let r1 = b.spec_update(me, map, list, events);
    let r2 = r1.behavior.spec_before_move(r1.me, map, list, r1.events);
    let moved = move_result(r2.me, map, list, i);
    let r3 = match move_motions(r2.me, map, list, i).1.outcome {
        MovementCollision::CollidedWithWorld => r2.behavior.spec_collide_with_world(moved, map, list, r2.events),
        MovementCollision::CollidedWithActor(o) => r2.behavior.spec_collide_with_actor(moved, o, map, list, r2.events),
        MovementCollision::Unobstructed => Hooked { behavior: r2.behavior, me: moved, events: r2.events },
    };
    let touching = overlapping(r3.me, list, i, list.len());
    let r4 = collide_all(r3, touching, touching.len(), map, list);
    r4.behavior.spec_after_move(r4.me, map, list, r4.events)
}

/// One actor's turn. Entry `i` of `actors` is the actor itself; the hooks see
/// the list as it was before the turn.
fn tick_one<A: Actor>(b: &mut A, actors: &mut Vec<ActorInfo>, i: usize, map: &Option<TileMap>, events: &mut Vec<PendingEvent<A>>)
    requires
        i < old(actors)@.len(),
        forall|j: int| 0 <= j < old(actors)@.len() ==> (#[trigger] old(actors)@[j]).wf(),
        map matches Some(m) ==> m.wf(),
    ensures
        only_entry_changed(old(actors)@, final(actors)@, i as int),
        (Hooked { behavior: *final(b), me: final(actors)@[i as int]@, events: final(events)@ })
            == turn(*old(b), old(actors)@[i as int]@, *map, views(old(actors)@), i as int, old(events)@),
{
    let ghost list = views(actors@);
    let mut me = actors[i].duplicate();
    assert(actors@[i as int].wf());
    b.update(&mut me, map, actors, events);
    b.before_move(&mut me, map, actors, events);
    let ghost r2 = Hooked { behavior: *b, me: me@, events: events@ };
    let outcome = me.move_with_collision(map, actors, i);
    match outcome {
        MovementCollision::CollidedWithWorld => b.on_collide_with_world(&mut me, map, actors, events),
        MovementCollision::CollidedWithActor(other) => b.on_collide_with_actor(&mut me, other, map, actors, events),
        MovementCollision::Unobstructed => {},
    }
    let ghost r3 = Hooked { behavior: *b, me: me@, events: events@ };
    let touching = me.check_for_actor_collision(actors, i);
    let mut k: usize = 0;
    while k < touching.len()
        invariant
            me.wf(),
            k <= touching@.len(),
            list == views(actors@),
            touching@ == overlapping(r3.me, list, i as int, list.len()),
            (Hooked { behavior: *b, me: me@, events: events@ }) == collide_all(r3, touching@, k as nat, *map, list),
        decreases touching@.len() - k,
    {
        b.on_collide_with_actor(&mut me, touching[k], map, actors, events);
        k += 1;
    }
    b.after_move(&mut me, map, actors, events);
    actors.set(i, me);
    proof {
        assert(touching@.len() == overlapping(r3.me, list, i as int, list.len()).len());
    }
}

impl<A: Actor> GameState<A> {
    /// Advances every actor's animations, then gives every actor not marked
    /// destroyed its turn, in list order; the list then keeps exactly those
    /// actors, so an actor marked destroyed during this tick leaves at the
    /// next one.
    #[verifier::rlimit(30)]
    pub fn tick_actors(&mut self)
        requires
            old(self).wf(),
        ensures
            final(self).wf(),
            final(self).actors@.len() == survivors(old(self).actors@, old(self).actors@.len() as nat).len(),
            views(final(self).actors@) == kept_of(turns(tick_start(*old(self)), old(self).map, old(self).actors@.len() as nat).list,
                survivors(old(self).actors@, old(self).actors@.len() as nat)),
            final(self).behaviors@ == kept_of(turns(tick_start(*old(self)), old(self).map, old(self).actors@.len() as nat).behaviors,
                survivors(old(self).actors@, old(self).actors@.len() as nat)),
            final(self).pending_events@ == turns(tick_start(*old(self)), old(self).map, old(self).actors@.len() as nat).events,
            ticked(*old(self), *final(self)),
            final(self).persistent@ == kept_of(old(self).persistent@, survivors(old(self).actors@, old(self).actors@.len() as nat)),
            final(self).stashed_actors == old(self).stashed_actors,
            final(self).stashed_behaviors == old(self).stashed_behaviors,
            final(self).map == old(self).map,
            final(self).paused == old(self).paused,
            final(self).frame == old(self).frame,
            final(self).fade_alpha == old(self).fade_alpha,
            final(self).target_fade_alpha == old(self).target_fade_alpha,
            final(self).controlled_actor == match old(self).controlled_actor {
                Some(c) => if old(self).actors@[c as int].destroyed {
                    None
                } else {
                    Some(survivors(old(self).actors@, c as nat).len() as usize)
                },
                None => None,
            },
    {
        let n = self.actors.len();
        let ghost start = self.actors@;
        let mut i: usize = 0;
        while i < n
            invariant
                n == self.actors@.len(),
                self.actors@.len() == start.len(),
                self.behaviors@.len() == n,
                self.map == old(self).map,
                self.map matches Some(m) ==> m.wf(),
                start == old(self).actors@,
                self.controlled_actor == old(self).controlled_actor,
                self.controlled_actor matches Some(c) ==> c < n,
                self.paused == old(self).paused,
                self.frame == old(self).frame,
                i <= n,
                forall|j: int| 0 <= j < n ==> (#[trigger] self.actors@[j]).wf(),
                forall|j: int| 0 <= j < n ==> (#[trigger] self.actors@[j]).destroyed == start[j].destroyed,
                self.persistent == old(self).persistent,
                self.stashed_actors == old(self).stashed_actors,
                self.stashed_behaviors == old(self).stashed_behaviors,
                self.fade_alpha == old(self).fade_alpha,
                self.target_fade_alpha == old(self).target_fade_alpha,
                self.behaviors == old(self).behaviors,
                self.pending_events == old(self).pending_events,
                forall|j: int| 0 <= j < i ==> #[trigger] self.actors@[j]@ == advanced(start[j]@),
                forall|j: int| i <= j < n ==> #[trigger] self.actors@[j] == start[j],
            decreases n - i,
        {
            let mut a = self.actors[i].duplicate();
            a.advance_animations();
            assert(a@.sprites =~= advanced(self.actors@[i as int]@).sprites);
            assert(self.actors@[i as int].wf());
            self.actors.set(i, a);
            i += 1;
        }
        assert(views(self.actors@) =~= tick_start(*old(self)).list);
        proof {
            lemma_survivors_flags(self.actors@, start, n as nat);
            if let Some(c) = self.controlled_actor {
                lemma_survivors_flags(self.actors@, start, c as nat);
            }
        }
        let ghost advanced = self.actors@;
        let ghost first = tick_start(*old(self));
        let controlled = self.controlled_actor;
        let mut new_controlled: Option<usize> = None;
        let mut behaviors: Vec<A> = Vec::new();
        std::mem::swap(&mut behaviors, &mut self.behaviors);
        let mut kept: Vec<bool> = Vec::new();
        let mut kept_behaviors: Vec<A> = Vec::new();
        let ghost mut turned: Seq<A> = Seq::empty();
        let mut i: usize = 0;
        while i < n
            invariant
                n == self.actors@.len(),
                n == advanced.len(),
                behaviors@.len() == n - i,
                turned.len() == i,
                kept@.len() == i,
                forall|j: int| 0 <= j < i ==> #[trigger] kept@[j] == !advanced[j].destroyed,
                kept_behaviors@ == kept_of(turned, survivors(advanced, i as nat)),
                first == tick_start(*old(self)),
                first.behaviors.len() == n,
                behaviors@ == first.behaviors.subrange(i as int, n as int),
                turns(first, self.map, i as nat).behaviors == turned + behaviors@,
                turns(first, self.map, i as nat).list == views(self.actors@),
                turns(first, self.map, i as nat).events == self.pending_events@,
                self.persistent == old(self).persistent,
                self.stashed_actors == old(self).stashed_actors,
                self.stashed_behaviors == old(self).stashed_behaviors,
                self.fade_alpha == old(self).fade_alpha,
                self.target_fade_alpha == old(self).target_fade_alpha,
                self.map == old(self).map,
                self.map matches Some(m) ==> m.wf(),
                self.paused == old(self).paused,
                self.frame == old(self).frame,
                i <= n,
                forall|j: int| 0 <= j < n ==> (#[trigger] self.actors@[j]).wf(),
                forall|j: int| i <= j < n ==> (#[trigger] self.actors@[j]).destroyed == advanced[j].destroyed,
                survivors(advanced, n as nat) == survivors(start, n as nat),
                controlled == old(self).controlled_actor,
                controlled matches Some(c) ==> c < n && survivors(advanced, c as nat) == survivors(start, c as nat)
                    && advanced[c as int].destroyed == start[c as int].destroyed,
                new_controlled == match controlled {
                    Some(c) => if c < i && !advanced[c as int].destroyed {
                        Some(survivors(advanced, c as nat).len() as usize)
                    } else {
                        None
                    },
                    None => None,
                },
            decreases n - i,
        {
            let ghost t = turns(first, self.map, i as nat);
            let ghost rest_before = behaviors@;
            let mut b = behaviors.remove(0);
            assert(t.behaviors[i as int] == b);
            assert(t.list[i as int] == self.actors@[i as int]@);
            if controlled == Some(i) && !self.actors[i].destroyed {
                new_controlled = Some(kept_behaviors.len());
            }
            let keep = !self.actors[i].destroyed;
            if keep {
                tick_one(&mut b, &mut self.actors, i, &self.map, &mut self.pending_events);
            }
            proof {
                lemma_survivors_bounded(advanced, i as nat);
                lemma_kept_of_extend(turned, b, survivors(advanced, i as nat));
                turned = turned.push(b);
                lemma_kept_of_step(turned, advanced, i as nat);
            }
            if keep {
                kept_behaviors.push(b);
            }
            kept.push(keep);
            proof {
                let t2 = turns(first, self.map, (i + 1) as nat);
                assert(t2.list =~= views(self.actors@));
                assert(t2.behaviors =~= turned + behaviors@);
            }
            i += 1;
        }
        proof {
            lemma_survivors_bounded(advanced, n as nat);
        }
        let ghost ends = self.actors@;
        let mut rest: Vec<ActorInfo> = Vec::new();
        std::mem::swap(&mut rest, &mut self.actors);
        let ghost all_flags_seq = self.persistent@;
        let mut rest_flags: Vec<bool> = Vec::new();
        std::mem::swap(&mut rest_flags, &mut self.persistent);
        let mut next_flags: Vec<bool> = Vec::new();
        let mut next: Vec<ActorInfo> = Vec::new();
        let mut k: usize = 0;
        while k < n
            invariant
                n == ends.len(),
                n == advanced.len(),
                kept@.len() == n,
                forall|j: int| 0 <= j < n ==> #[trigger] kept@[j] == !advanced[j].destroyed,
                forall|j: int| 0 <= j < n ==> (#[trigger] ends[j]).wf(),
                k <= n,
                rest@ == ends.subrange(k as int, n as int),
                next@ == kept_of(ends, survivors(advanced, k as nat)),
                all_flags_seq.len() == n,
                rest_flags@ == all_flags_seq.subrange(k as int, n as int),
                next_flags@ == kept_of(all_flags_seq, survivors(advanced, k as nat)),
            decreases n - k,
        {
            let a = rest.remove(0);
            let f = rest_flags.remove(0);
            assert(a == ends[k as int]);
            assert(f == all_flags_seq[k as int]);
            proof {
                lemma_kept_of_step(ends, advanced, k as nat);
                lemma_kept_of_step(all_flags_seq, advanced, k as nat);
            }
            if kept[k] {
                next.push(a);
                next_flags.push(f);
            }
            k += 1;
        }
        proof {
            lemma_survivors_bounded(advanced, n as nat);
            assert forall|q: int| 0 <= q < next@.len() implies (#[trigger] next@[q]).wf() by {
                assert(next@[q] == ends[survivors(advanced, n as nat)[q] as int]);
            }
            lemma_views_kept(ends, survivors(advanced, n as nat));
            assert(turned + behaviors@ =~= turned);
        }
        proof {
            if let Some(c) = controlled {
                if !advanced[c as int].destroyed {
                    lemma_survivors_grow(advanced, (c + 1) as nat, n as nat);
                    lemma_survivors_bounded(advanced, c as nat);
                }
            }
        }
        self.actors = next;
        self.behaviors = kept_behaviors;
        self.persistent = next_flags;
        self.controlled_actor = new_controlled;
    }
}

/// The parts of the world that queued changes decide on their own (the
/// actors' state after their `init` hooks is up to their behaviours).
pub struct Settled {
    pub map: Option<TileMap>,
    pub count: nat,
    /// persistent actors, on the list or waiting for a map
    pub persistent: nat,
    pub controlled: Option<usize>,
    pub shake: (isize, isize),
    pub scroll: (isize, isize),
    pub target_fade: u8,
}

pub open spec fn settled_of<A>(g: GameState<A>) -> Settled {
    Settled {
        map: g.map,
        count: g.actors@.len(),
        persistent: count_flags(g.persistent@) + g.stashed_actors@.len(),
        controlled: g.controlled_actor,
        shake: (g.camera_shake_x, g.camera_shake_y),
        scroll: (g.scroll_x, g.scroll_y),
        target_fade: g.target_fade_alpha,
    }
}

/// Number of `true` entries.
pub open spec fn count_flags(flags: Seq<bool>) -> nat
    decreases flags.len(),
{
    if flags.len() == 0 {
        0
    } else {
        count_flags(flags.drop_last()) + if flags.last() { 1nat } else { 0nat }
    }
}

/// The effect of one queued change. A new map replaces the map and the
/// actors, if it and its actors are well formed, and the persistent actors
/// follow its own; an actor joins if it is well formed; unloading the map
/// leaves no actor, the persistent ones wait for the next map; input can
/// only be given to an actor in the list.
pub open spec fn settle<A>(s: Settled, e: PendingEvent<A>) -> Settled {
    match e {
        PendingEvent::MapChange(ch) => if ch.map.wf() && ch.actors@.len() == ch.behaviors@.len()
            && (forall|j: int| 0 <= j < ch.actors@.len() ==> (#[trigger] ch.actors@[j]).wf()) {
            Settled { map: Some(ch.map), count: ch.actors@.len() + s.persistent, controlled: None, shake: (0, 0), ..s }
        } else {
            s
        },
        PendingEvent::UnloadMap => Settled { map: None, count: 0, controlled: None, shake: (0, 0), ..s },
        PendingEvent::AddActor(info, _) => if info.wf() { Settled { count: s.count + 1, ..s } } else { s },
        PendingEvent::AddPersistentActor(info, _) => if info.wf() {
            Settled { count: s.count + 1, persistent: s.persistent + 1, ..s }
        } else {
            s
        },
        PendingEvent::ClearPersistentActors => Settled { persistent: 0, ..s },
        PendingEvent::AdjustHealth(_, _) => s,
        PendingEvent::SetControlledActor(h) => Settled {
            controlled: match h {
                Some(c) => if c < s.count { Some(c) } else { None },
                None => None,
            },
            ..s
        },
        PendingEvent::SetCameraShake(e) => Settled { shake: (e.x, e.y), ..s },
        PendingEvent::SetScroll(e) => Settled { scroll: (e.x, e.y), ..s },
        PendingEvent::FadeIn => Settled { target_fade: 0, ..s },
        PendingEvent::FadeOut => Settled { target_fade: 16, ..s },
    }
}

/// The actor list and behaviours after one queued change, where the change
/// alone decides them: `None` once a new map has started its actors, whose
/// `init` hooks decide their state.
pub open spec fn list_step<A>(l: Option<(Seq<ActorInfo>, Seq<A>)>, e: PendingEvent<A>) -> Option<(Seq<ActorInfo>, Seq<A>)> {
    match e {
        PendingEvent::MapChange(ch) => if ch.map.wf() && ch.actors@.len() == ch.behaviors@.len()
            && (forall|j: int| 0 <= j < ch.actors@.len() ==> (#[trigger] ch.actors@[j]).wf()) {
            None
        } else {
            l
        },
        PendingEvent::UnloadMap => Some((Seq::empty(), Seq::empty())),
        PendingEvent::AddActor(info, b) => if info.wf() {
            match l {
                Some((actors, behaviors)) => Some((actors.push(info), behaviors.push(b))),
                None => None,
            }
        } else {
            l
        },
        PendingEvent::AddPersistentActor(info, b) => if info.wf() {
            match l {
                Some((actors, behaviors)) => Some((actors.push(info), behaviors.push(b))),
                None => None,
            }
        } else {
            l
        },
        PendingEvent::ClearPersistentActors => None,
        PendingEvent::AdjustHealth(_, _) => None,
        _ => l,
    }
}

/// The actor list and behaviours after the first `n` queued changes, where
/// the changes alone decide them; a queued actor joins at the end.
pub open spec fn list_after<A>(actors: Seq<ActorInfo>, behaviors: Seq<A>, events: Seq<PendingEvent<A>>, n: nat) -> Option<(Seq<ActorInfo>, Seq<A>)>
    decreases n,
{
    if n == 0 {
        Some((actors, behaviors))
    } else {
        list_step(list_after(actors, behaviors, events, (n - 1) as nat), events[n - 1])
    }
}

/// The fade level one frame later: one step towards the target.
pub open spec fn fade_step(level: u8, target: u8) -> u8 {
    if level < target {
        (level + 1) as u8
    } else if level > target {
        (level - 1) as u8
    } else {
        level
    }
}

/// The effect of the first `n` queued changes, in order.
pub open spec fn settle_all<A>(s: Settled, events: Seq<PendingEvent<A>>, n: nat) -> Settled
    decreases n,
{
    if n == 0 {
        s
    } else {
        settle(settle_all(s, events, (n - 1) as nat), events[n - 1])
    }
}

/// `n` copies of `value`.
fn all_flags(n: usize, value: bool) -> (r: Vec<bool>)
    ensures
        r@.len() == n,
        count_flags(r@) == if value { n as nat } else { 0 },
{
    let mut r: Vec<bool> = Vec::new();
    let mut i: usize = 0;
    while i < n
        invariant
            i <= n,
            r@.len() == i,
            count_flags(r@) == if value { i as nat } else { 0 },
        decreases n - i,
    {
        proof {
            lemma_count_flags_push(r@, value);
        }
        r.push(value);
        i += 1;
    }
    r
}

pub proof fn lemma_count_flags_push(flags: Seq<bool>, value: bool)
    ensures
        count_flags(flags.push(value)) == count_flags(flags) + if value { 1nat } else { 0nat },
{
    assert(flags.push(value).drop_last() =~= flags);
}

pub proof fn lemma_count_flags_append(a: Seq<bool>, b: Seq<bool>)
    ensures
        count_flags(a + b) == count_flags(a) + count_flags(b),
    decreases b.len(),
{
    if b.len() == 0 {
        assert(a + b =~= a);
    } else {
        lemma_count_flags_append(a, b.drop_last());
        assert((a + b).drop_last() =~= a + b.drop_last());
    }
}

pub proof fn lemma_count_flags_prefix(flags: Seq<bool>, i: int)
    requires
        0 <= i < flags.len(),
    ensures
        count_flags(flags.subrange(0, i + 1)) == count_flags(flags.subrange(0, i)) + if flags[i] { 1nat } else { 0nat },
{
    assert(flags.subrange(0, i + 1) =~= flags.subrange(0, i).push(flags[i]));
    lemma_count_flags_push(flags.subrange(0, i), flags[i]);
}

impl<A: Actor> GameState<A> {
    /// Empties the list; its persistent actors join the waiting ones, in order.
    fn stash_persistent(&mut self)
        requires
            old(self).actors@.len() == old(self).behaviors@.len(),
            old(self).persistent@.len() == old(self).actors@.len(),
            old(self).stashed_actors@.len() == old(self).stashed_behaviors@.len(),
            forall|i: int| 0 <= i < old(self).actors@.len() ==> (#[trigger] old(self).actors@[i]).wf(),
            forall|i: int| 0 <= i < old(self).stashed_actors@.len() ==> (#[trigger] old(self).stashed_actors@[i]).wf(),
        ensures
            final(self).actors@.len() == 0,
            final(self).behaviors@.len() == 0,
            final(self).persistent@.len() == 0,
            final(self).stashed_actors@.len() == final(self).stashed_behaviors@.len(),
            final(self).stashed_actors@.len() == old(self).stashed_actors@.len() + count_flags(old(self).persistent@),
            forall|i: int| 0 <= i < final(self).stashed_actors@.len() ==> (#[trigger] final(self).stashed_actors@[i]).wf(),
            *final(self) == (GameState {
                actors: final(self).actors,
                behaviors: final(self).behaviors,
                persistent: final(self).persistent,
                stashed_actors: final(self).stashed_actors,
                stashed_behaviors: final(self).stashed_behaviors,
                ..*old(self)
            }),
    {
        let mut actors: Vec<ActorInfo> = Vec::new();
        let mut behaviors: Vec<A> = Vec::new();
        let mut flags: Vec<bool> = Vec::new();
        std::mem::swap(&mut actors, &mut self.actors);
        std::mem::swap(&mut behaviors, &mut self.behaviors);
        std::mem::swap(&mut flags, &mut self.persistent);
        let n = actors.len();
        let ghost all = actors@;
        let ghost all_flags_seq = flags@;
        let mut i: usize = 0;
        while i < n
            invariant
                n == all.len(),
                all_flags_seq.len() == n,
                i <= n,
                actors@ == all.subrange(i as int, n as int),
                flags@ == all_flags_seq.subrange(i as int, n as int),
                behaviors@.len() == n - i,
                all == old(self).actors@,
                all_flags_seq == old(self).persistent@,
                forall|j: int| 0 <= j < n ==> (#[trigger] all[j]).wf(),
                self.actors@.len() == 0,
                self.behaviors@.len() == 0,
                self.persistent@.len() == 0,
                self.stashed_actors@.len() == self.stashed_behaviors@.len(),
                self.stashed_actors@.len() == old(self).stashed_actors@.len() + count_flags(all_flags_seq.subrange(0, i as int)),
                forall|j: int| 0 <= j < self.stashed_actors@.len() ==> (#[trigger] self.stashed_actors@[j]).wf(),
                *self == (GameState {
                    actors: self.actors,
                    behaviors: self.behaviors,
                    persistent: self.persistent,
                    stashed_actors: self.stashed_actors,
                    stashed_behaviors: self.stashed_behaviors,
                    ..*old(self)
                }),
            decreases n - i,
        {
            let a = actors.remove(0);
            let b = behaviors.remove(0);
            let f = flags.remove(0);
            assert(a == all[i as int] && f == all_flags_seq[i as int]);
            proof {
                lemma_count_flags_prefix(all_flags_seq, i as int);
            }
            if f {
                self.stashed_actors.push(a);
                self.stashed_behaviors.push(b);
            }
            i += 1;
        }
        assert(all_flags_seq.subrange(0, n as int) =~= all_flags_seq);
    }

    /// Every actor stops being persistent: those on the list and those
    /// waiting hear of it, in order; the waiting ones are dropped.
    fn clear_persistence(&mut self)
        requires
            old(self).wf(),
        ensures
            final(self).wf(),
            final(self).actors@.len() == old(self).actors@.len(),
            count_flags(final(self).persistent@) == 0,
            final(self).stashed_actors@.len() == 0,
            *final(self) == (GameState {
                actors: final(self).actors,
                behaviors: final(self).behaviors,
                persistent: final(self).persistent,
                stashed_actors: final(self).stashed_actors,
                stashed_behaviors: final(self).stashed_behaviors,
                pending_events: final(self).pending_events,
                ..*old(self)
            }),
    {
        let n = self.actors.len();
        let mut i: usize = 0;
        while i < n
            invariant
                self.wf(),
                n == self.actors@.len(),
                i <= n,
                count_flags(self.persistent@.subrange(0, i as int)) == 0,
                *self == (GameState {
                    actors: self.actors,
                    behaviors: self.behaviors,
                    persistent: self.persistent,
                    stashed_actors: self.stashed_actors,
                    stashed_behaviors: self.stashed_behaviors,
                    pending_events: self.pending_events,
                    ..*old(self)
                }),
            decreases n - i,
        {
            let ghost flags_before = self.persistent@;
            if self.persistent[i] {
                let mut me = self.actors[i].duplicate();
                assert(self.actors@[i as int].wf());
                let mut b = self.behaviors.remove(i);
                b.on_persistent_actor_removed(&mut me, &self.map, &self.actors, &mut self.pending_events);
                self.behaviors.insert(i, b);
                let ghost before = self.actors@;
                self.actors.set(i, me);
                self.persistent.set(i, false);
                proof {
                    assert forall|j: int| 0 <= j < n implies (#[trigger] self.actors@[j]).wf() by {
                        if j != i {
                            assert(self.actors@[j] == before[j]);
                        }
                    }
                }
            }
            proof {
                assert(self.persistent@.subrange(0, i as int) =~= flags_before.subrange(0, i as int));
                lemma_count_flags_prefix(self.persistent@, i as int);
            }
            i += 1;
        }
        assert(self.persistent@.subrange(0, n as int) =~= self.persistent@);
        while self.stashed_actors.len() > 0
            invariant
                self.wf(),
                n == self.actors@.len(),
                count_flags(self.persistent@) == 0,
                *self == (GameState {
                    actors: self.actors,
                    behaviors: self.behaviors,
                    persistent: self.persistent,
                    stashed_actors: self.stashed_actors,
                    stashed_behaviors: self.stashed_behaviors,
                    pending_events: self.pending_events,
                    ..*old(self)
                }),
            decreases self.stashed_actors@.len(),
        {
            let mut me = self.stashed_actors.remove(0);
            let mut b = self.stashed_behaviors.remove(0);
            b.on_persistent_actor_removed(&mut me, &self.map, &self.actors, &mut self.pending_events);
        }
    }
}

/// Gives each actor of a freshly loaded map its `init` call, in order.
fn init_all<A: Actor>(behaviors: &mut Vec<A>, actors: &mut Vec<ActorInfo>, map: &Option<TileMap>, events: &mut Vec<PendingEvent<A>>)
    requires
        old(behaviors)@.len() == old(actors)@.len(),
        forall|j: int| 0 <= j < old(actors)@.len() ==> (#[trigger] old(actors)@[j]).wf(),
        map matches Some(m) ==> m.wf(),
    ensures
        final(behaviors)@.len() == final(actors)@.len(),
        final(actors)@.len() == old(actors)@.len(),
        forall|j: int| 0 <= j < final(actors)@.len() ==> (#[trigger] final(actors)@[j]).wf(),
{
    let n = actors.len();
    let mut i: usize = 0;
    while i < n
        invariant
            n == actors@.len(),
            n == behaviors@.len(),
            i <= n,
            forall|j: int| 0 <= j < n ==> (#[trigger] actors@[j]).wf(),
            map matches Some(m) ==> m.wf(),
        decreases n - i,
    {
        let mut b = behaviors.remove(i);
        let mut me = actors[i].duplicate();
        assert(actors@[i as int].wf());
        b.init(&mut me, map, actors, events);
        let ghost before = actors@;
        actors.set(i, me);
        behaviors.insert(i, b);
        proof {
            assert forall|j: int| 0 <= j < n implies (#[trigger] actors@[j]).wf() by {
                if j != i {
                    assert(actors@[j] == before[j]);
                }
            }
        }
        i += 1;
    }
}

fn all_valid(actors: &Vec<ActorInfo>) -> (r: bool)
    ensures
        r == forall|j: int| 0 <= j < actors@.len() ==> (#[trigger] actors@[j]).wf(),
{
    let mut i: usize = 0;
    while i < actors.len()
        invariant
            i <= actors@.len(),
            forall|j: int| 0 <= j < i ==> (#[trigger] actors@[j]).wf(),
        decreases actors@.len() - i,
    {
        if !actors[i].is_valid() {
            return false;
        }
        i += 1;
    }
    true
}

impl<A: Actor> GameState<A> {
    /// Applies, in order, the changes queued before this call; a queued map or
    /// actor that is not well formed is dropped. Changes queued while these
    /// are applied wait for the next call.
    #[verifier::rlimit(30)]
    pub fn apply_pending_events(&mut self)
        requires
            old(self).wf(),
        ensures
            final(self).wf(),
            final(self).paused == old(self).paused,
            final(self).frame == old(self).frame,
            old(self).pending_events@.len() == 0 ==> final(self).actors == old(self).actors
                && final(self).map == old(self).map && final(self).pending_events@.len() == 0,
            settled_of(*final(self)) == settle_all(settled_of(*old(self)), old(self).pending_events@,
                old(self).pending_events@.len()),
            list_after(old(self).actors@, old(self).behaviors@, old(self).pending_events@,
                old(self).pending_events@.len()) matches Some(l) ==> final(self).actors@ == l.0
                && final(self).behaviors@ == l.1,
            final(self).fade_alpha == old(self).fade_alpha,
            !hooks_run(old(self).pending_events@) ==> final(self).pending_events@.len() == 0,
    {
        let mut queue: Vec<PendingEvent<A>> = Vec::new();
        std::mem::swap(&mut queue, &mut self.pending_events);
        let ghost all = queue@;
        let ghost done: nat = 0;
        while queue.len() > 0
            invariant
                self.wf(),
                self.paused == old(self).paused,
                self.frame == old(self).frame,
                all == old(self).pending_events@,
                done <= all.len(),
                queue@ == all.subrange(done as int, all.len() as int),
                settled_of(*self) == settle_all(settled_of(*old(self)), all, done),
                list_after(old(self).actors@, old(self).behaviors@, all, done) matches Some(l) ==> self.actors@ == l.0
                    && self.behaviors@ == l.1,
                self.fade_alpha == old(self).fade_alpha,
                !hooks_run(all.subrange(0, done as int)) ==> self.pending_events@.len() == 0,
                old(self).pending_events@.len() == 0 ==> queue@.len() == 0 && self.actors == old(self).actors
                    && self.map == old(self).map && self.pending_events@.len() == 0,
            decreases queue@.len(),
        {
            let event = queue.remove(0);
            assert(event == all[done as int]);
            let ghost queued_before = self.pending_events@;
            let ghost old_flags = self.persistent@;
            match event {
                PendingEvent::MapChange(change) => {
                    let MapChangeEvent { map, actors, behaviors } = change;
                    if map.is_valid() && actors.len() == behaviors.len() && all_valid(&actors) {
                        self.stash_persistent();
                        self.map = Some(map);
                        let mut actors = actors;
                        let mut behaviors = behaviors;
                        let mut flags = all_flags(actors.len(), false);
                        let mut carried = all_flags(self.stashed_actors.len(), true);
                        proof {
                            lemma_count_flags_append(flags@, carried@);
                        }
                        actors.append(&mut self.stashed_actors);
                        behaviors.append(&mut self.stashed_behaviors);
                        flags.append(&mut carried);
                        self.actors = actors;
                        self.behaviors = behaviors;
                        self.persistent = flags;
                        self.camera_shake_x = 0;
                        self.camera_shake_y = 0;
                        self.controlled_actor = None;
                        init_all(&mut self.behaviors, &mut self.actors, &self.map, &mut self.pending_events);
                    }
                },
                PendingEvent::UnloadMap => {
                    self.stash_persistent();
                    self.map = None;
                    self.controlled_actor = None;
                    self.camera_shake_x = 0;
                    self.camera_shake_y = 0;
                },
                PendingEvent::AddActor(info, behavior) => {
                    if info.is_valid() {
                        self.actors.push(info);
                        self.behaviors.push(behavior);
                        self.persistent.push(false);
                        proof {
                            lemma_count_flags_push(old_flags, false);
                        }
                    }
                },
                PendingEvent::AddPersistentActor(info, behavior) => {
                    if info.is_valid() {
                        self.actors.push(info);
                        self.behaviors.push(behavior);
                        self.persistent.push(true);
                        proof {
                            lemma_count_flags_push(old_flags, true);
                        }
                    }
                },
                PendingEvent::ClearPersistentActors => {
                    self.clear_persistence();
                },
                PendingEvent::AdjustHealth(target, amount) => {
                    if target < self.actors.len() {
                        self.adjust_health(target, amount);
                    }
                },
                PendingEvent::SetControlledActor(handle) => {
                    self.controlled_actor = match handle {
                        Some(c) => if c < self.actors.len() { Some(c) } else { None },
                        None => None,
                    };
                },
                PendingEvent::SetCameraShake(shake) => {
                    self.camera_shake_x = shake.x;
                    self.camera_shake_y = shake.y;
                },
                PendingEvent::SetScroll(scroll) => {
                    self.scroll_x = scroll.x;
                    self.scroll_y = scroll.y;
                },
                PendingEvent::FadeIn => {
                    self.target_fade_alpha = 0;
                },
                PendingEvent::FadeOut => {
                    self.target_fade_alpha = 16;
                },
            }
            proof {
                assert(!runs_hooks(all[done as int]) ==> self.pending_events@ == queued_before);
                assert(all.subrange(0, done + 1 as int)[done as int] == all[done as int]);
                assert forall|k: int| 0 <= k < done && runs_hooks(#[trigger] all.subrange(0, done as int)[k])
                    implies runs_hooks(all.subrange(0, done + 1 as int)[k]) by {
                    assert(all.subrange(0, done as int)[k] == all.subrange(0, done + 1 as int)[k]);
                }
                if !runs_hooks(all[done as int]) && hooks_run(all.subrange(0, done + 1 as int)) {
                    let k = choose|k: int| 0 <= k < done + 1 && runs_hooks(#[trigger] all.subrange(0, done + 1 as int)[k]);
                    assert(all.subrange(0, done + 1 as int)[k] == all.subrange(0, done as int)[k]);
                }
                done = done + 1;
            }
        }
        assert(done == all.len());
        assert(all.subrange(0, done as int) =~= all);
    }

    /// One frame: queued changes first, then the game's hook, then, unless
    /// paused, every actor's turn; then the fade moves one step towards its
    /// target.
    pub fn tick<G: Game>(&mut self, game: &mut G)
        requires
            old(self).wf(),
        ensures
            final(self).wf(),
            final(self).paused == old(self).paused,
            final(self).frame == if old(self).frame == usize::MAX { 0 } else { (old(self).frame + 1) as usize },
            old(self).pending_events@.len() == 0 && !old(self).paused ==> final(self).actors@.len()
                == survivors(old(self).actors@, old(self).actors@.len() as nat).len(),
            old(self).pending_events@.len() == 0 && old(self).paused ==> final(self).actors == old(self).actors,
            final(self).map == settle_all(settled_of(*old(self)), old(self).pending_events@,
                old(self).pending_events@.len()).map,
            final(self).target_fade_alpha == settle_all(settled_of(*old(self)), old(self).pending_events@,
                old(self).pending_events@.len()).target_fade,
            final(self).fade_alpha == fade_step(old(self).fade_alpha, settle_all(settled_of(*old(self)),
                old(self).pending_events@, old(self).pending_events@.len()).target_fade),
            exists|mid: GameState<A>| #[trigger] settled_of(mid) == settle_all(settled_of(*old(self)),
                old(self).pending_events@, old(self).pending_events@.len())
                && (list_after(old(self).actors@, old(self).behaviors@, old(self).pending_events@,
                    old(self).pending_events@.len()) matches Some(l) ==> mid.actors@ == l.0 && mid.behaviors@ == l.1)
                && (!hooks_run(old(self).pending_events@) ==> mid.pending_events@.len() == 0)
                && (old(self).paused ==> final(self).actors == mid.actors && final(self).behaviors == mid.behaviors
                    && final(self).pending_events == mid.pending_events)
                && (!old(self).paused ==> ticked(mid, *final(self))),
    {
        self.apply_pending_events();
        let ghost mid = *self;
        game.tick();
        if !self.paused {
            self.tick_actors();
        }
        assert(settled_of(mid) == settle_all(settled_of(*old(self)), old(self).pending_events@,
            old(self).pending_events@.len()));
        if self.fade_alpha < self.target_fade_alpha {
            self.fade_alpha = self.fade_alpha + 1;
        } else if self.fade_alpha > self.target_fade_alpha {
            self.fade_alpha = self.fade_alpha - 1;
        }
        self.frame = if self.frame == usize::MAX { 0 } else { self.frame + 1 };
    }

    /// Changes the health of actor `index` by `amount`; when that kills it,
    /// its `on_death` runs, once. Returns whether it died.
    pub fn adjust_health(&mut self, index: usize, amount: i32) -> (died: bool)
        requires
            old(self).wf(),
            index < old(self).actors@.len(),
        ensures
            final(self).wf(),
            final(self).actors@.len() == old(self).actors@.len(),
            died == (old(self).actors@[index as int].health > 0
                && health_after(old(self).actors@[index as int].health, amount) <= 0),
            !died ==> final(self).actors@[index as int].health as int
                == health_after(old(self).actors@[index as int].health, amount),
            !died ==> final(self).actors@[index as int]@ == hurt(old(self).actors@[index as int]@, amount)
                && final(self).behaviors == old(self).behaviors && final(self).pending_events == old(self).pending_events,
            died ==> (Hooked {
                behavior: final(self).behaviors@[index as int],
                me: final(self).actors@[index as int]@,
                events: final(self).pending_events@,
            }) == old(self).behaviors@[index as int].spec_death(hurt(old(self).actors@[index as int]@, amount), old(self).map,
                views(old(self).actors@), old(self).pending_events@),
            final(self).behaviors@.len() == old(self).behaviors@.len(),
            forall|j: int| 0 <= j < old(self).actors@.len() && j != index ==> #[trigger] final(self).actors@[j] == old(self).actors@[j],
            forall|j: int| 0 <= j < old(self).behaviors@.len() && j != index ==> #[trigger] final(self).behaviors@[j] == old(self).behaviors@[j],
            *final(self) == (GameState {
                actors: final(self).actors,
                behaviors: final(self).behaviors,
                pending_events: final(self).pending_events,
                ..*old(self)
            }),
    {
        let mut me = self.actors[index].duplicate();
        assert(self.actors@[index as int].wf());
        let died = me.adjust_health(amount);
        assert(me@ == hurt(self.actors@[index as int]@, amount));
        if died {
            let mut b = self.behaviors.remove(index);
            b.on_death(&mut me, &self.map, &self.actors, &mut self.pending_events);
            self.behaviors.insert(index, b);
            assert(self.behaviors@ =~= old(self).behaviors@.update(index as int, b));
        }
        self.actors.set(index, me);
        died
    }
}

/// An actor after a change of health of `amount`.
pub open spec fn hurt(v: ActorView, amount: i32) -> ActorView {
    ActorView { health: health_after(v.health, amount) as i32, ..v }
}

/// Actor `j` is not the one that input goes to.
pub open spec fn not_controlled(controlled: Option<usize>, j: int) -> bool {
    !(controlled matches Some(c) && c == j)
}

impl<A: Actor> GameState<A> {
    /// Queues a change of the actor that input goes to.
    pub fn set_controlled_actor(&mut self, handle: Option<usize>)
        ensures
            final(self).pending_events@ == old(self).pending_events@.push(PendingEvent::SetControlledActor(handle)),
            final(self).actors == old(self).actors,
            final(self).behaviors == old(self).behaviors,
            final(self).controlled_actor == old(self).controlled_actor,
            final(self).map == old(self).map,
            final(self).paused == old(self).paused,
    {
        self.pending_events.push(PendingEvent::SetControlledActor(handle));
    }

    /// Hands a button event to the controlled actor, if there is one.
    fn route_button(&mut self, name: &str, down: bool)
        requires
            old(self).wf(),
        ensures
            final(self).wf(),
            final(self).actors@.len() == old(self).actors@.len(),
            final(self).controlled_actor == old(self).controlled_actor,
            final(self).map == old(self).map,
            final(self).paused == old(self).paused,
            final(self).frame == old(self).frame,
            old(self).controlled_actor is None ==> final(self).actors == old(self).actors,
            final(self).behaviors@.len() == old(self).behaviors@.len(),
            forall|j: int| 0 <= j < old(self).actors@.len() && not_controlled(old(self).controlled_actor, j) ==>
                #[trigger] final(self).actors@[j] == old(self).actors@[j],
            forall|j: int| 0 <= j < old(self).behaviors@.len() && not_controlled(old(self).controlled_actor, j) ==>
                #[trigger] final(self).behaviors@[j] == old(self).behaviors@[j],
            old(self).controlled_actor is None ==> final(self).pending_events == old(self).pending_events,
            old(self).controlled_actor matches Some(c) ==> (Hooked {
                behavior: final(self).behaviors@[c as int],
                me: final(self).actors@[c as int]@,
                events: final(self).pending_events@,
            }) == if down {
                old(self).behaviors@[c as int].spec_button_down(old(self).actors@[c as int]@, name@, old(self).map,
                    views(old(self).actors@), old(self).pending_events@)
            } else {
                old(self).behaviors@[c as int].spec_button_up(old(self).actors@[c as int]@, name@, old(self).map,
                    views(old(self).actors@), old(self).pending_events@)
            },
    {
        if let Some(c) = self.controlled_actor {
            let mut me = self.actors[c].duplicate();
            assert(self.actors@[c as int].wf());
            let mut b = self.behaviors.remove(c);
            if down {
                b.on_button_down(&mut me, name, &self.map, &self.actors, &mut self.pending_events);
            } else {
                b.on_button_up(&mut me, name, &self.map, &self.actors, &mut self.pending_events);
            }
            self.behaviors.insert(c, b);
            assert(self.behaviors@ =~= old(self).behaviors@.update(c as int, b));
            let ghost before = self.actors@;
            self.actors.set(c, me);
            proof {
                assert forall|j: int| 0 <= j < self.actors@.len() implies (#[trigger] self.actors@[j]).wf() by {
                    if j != c {
                        assert(self.actors@[j] == before[j]);
                    }
                }
            }
        }
    }

    /// A button was pressed: only the controlled actor hears of it.
    pub fn button_down(&mut self, name: &str)
        requires
            old(self).wf(),
        ensures
            final(self).wf(),
            final(self).actors@.len() == old(self).actors@.len(),
            final(self).controlled_actor == old(self).controlled_actor,
            old(self).controlled_actor is None ==> final(self).actors == old(self).actors,
            forall|j: int| 0 <= j < old(self).actors@.len() && not_controlled(old(self).controlled_actor, j) ==>
                #[trigger] final(self).actors@[j] == old(self).actors@[j],
            forall|j: int| 0 <= j < old(self).behaviors@.len() && not_controlled(old(self).controlled_actor, j) ==>
                #[trigger] final(self).behaviors@[j] == old(self).behaviors@[j],
            old(self).controlled_actor is None ==> final(self).pending_events == old(self).pending_events,
            old(self).controlled_actor matches Some(c) ==> (Hooked {
                behavior: final(self).behaviors@[c as int],
                me: final(self).actors@[c as int]@,
                events: final(self).pending_events@,
            }) == old(self).behaviors@[c as int].spec_button_down(old(self).actors@[c as int]@, name@, old(self).map,
                views(old(self).actors@), old(self).pending_events@),
    {
        self.route_button(name, true);
    }

    /// A button was released: only the controlled actor hears of it.
    pub fn button_up(&mut self, name: &str)
        requires
            old(self).wf(),
        ensures
            final(self).wf(),
            final(self).actors@.len() == old(self).actors@.len(),
            final(self).controlled_actor == old(self).controlled_actor,
            old(self).controlled_actor is None ==> final(self).actors == old(self).actors,
            forall|j: int| 0 <= j < old(self).actors@.len() && not_controlled(old(self).controlled_actor, j) ==>
                #[trigger] final(self).actors@[j] == old(self).actors@[j],
            forall|j: int| 0 <= j < old(self).behaviors@.len() && not_controlled(old(self).controlled_actor, j) ==>
                #[trigger] final(self).behaviors@[j] == old(self).behaviors@[j],
            old(self).controlled_actor is None ==> final(self).pending_events == old(self).pending_events,
            old(self).controlled_actor matches Some(c) ==> (Hooked {
                behavior: final(self).behaviors@[c as int],
                me: final(self).actors@[c as int]@,
                events: final(self).pending_events@,
            }) == old(self).behaviors@[c as int].spec_button_up(old(self).actors@[c as int]@, name@, old(self).map,
                views(old(self).actors@), old(self).pending_events@),
    {
        self.route_button(name, false);
    }
}

impl<A: Actor> GameState<A> {
    /// Queues a fade to black.
    pub fn fade_out(&mut self)
        ensures
            final(self).pending_events@ == old(self).pending_events@.push(PendingEvent::FadeOut),
            final(self).actors == old(self).actors,
            final(self).behaviors == old(self).behaviors,
            final(self).map == old(self).map,
            final(self).controlled_actor == old(self).controlled_actor,
            final(self).paused == old(self).paused,
    {
        self.pending_events.push(PendingEvent::FadeOut);
    }

    /// Queues a fade back from black.
    pub fn fade_in(&mut self)
        ensures
            final(self).pending_events@ == old(self).pending_events@.push(PendingEvent::FadeIn),
            final(self).actors == old(self).actors,
            final(self).behaviors == old(self).behaviors,
            final(self).map == old(self).map,
            final(self).controlled_actor == old(self).controlled_actor,
            final(self).paused == old(self).paused,
    {
        self.pending_events.push(PendingEvent::FadeIn);
    }

    /// Queues a camera shake offset.
    pub fn set_camera_shake(&mut self, x: isize, y: isize)
        ensures
            final(self).pending_events@ == old(self).pending_events@.push(PendingEvent::SetCameraShake(SetCameraShakeEvent { x, y })),
            final(self).actors == old(self).actors,
            final(self).behaviors == old(self).behaviors,
            final(self).map == old(self).map,
            final(self).controlled_actor == old(self).controlled_actor,
            final(self).paused == old(self).paused,
    {
        self.pending_events.push(PendingEvent::SetCameraShake(SetCameraShakeEvent { x, y }));
    }

    /// Queues a scroll position.
    pub fn set_scroll(&mut self, x: isize, y: isize)
        ensures
            final(self).pending_events@ == old(self).pending_events@.push(PendingEvent::SetScroll(SetScrollEvent { x, y })),
            final(self).actors == old(self).actors,
            final(self).behaviors == old(self).behaviors,
            final(self).map == old(self).map,
            final(self).controlled_actor == old(self).controlled_actor,
            final(self).paused == old(self).paused,
    {
        self.pending_events.push(PendingEvent::SetScroll(SetScrollEvent { x, y }));
    }
}

} // verus!
