use vstd::prelude::*;

use crate::bird::{
    lemma_tick_is_order_independent, all_bounded, half_extent, margin, positions, stepped_position, stepped_velocity, vertices, wrapped_bird,
    Bird, ARENA_LIMIT, MOVE_LIMIT, STEP_LIMIT,
};
use crate::bird_config::BirdConfig;
use crate::spatial::{SpatialIndex, COORD_LIMIT};
use crate::vector::{in_box, Vec2, SCALE};

verus! {

/// Which agent leaves when an insertion takes the flock over its capacity.
#[derive(Clone, Copy, Debug, PartialEq, Eq, Structural)]
pub enum EvictionPolicy {
    /// The agent that has been in the flock longest.
    OldestFirst,
    /// An agent drawn uniformly from the flock's random source.
    UniformRandom,
}

/// The structural errors of the flock; each leaves the flock unchanged.
#[derive(Clone, Copy, Debug, PartialEq, Eq, Structural)]
pub enum FlockError {
    /// An agent was inserted with a species id that has no config.
    UnknownSpecies,
    /// A config update named a species id that has no config.
    NotFound,
}

/// The species table held by `s`: each id maps to the config stored with it.
pub open spec fn table(s: Seq<(String, BirdConfig)>) -> Map<Seq<char>, BirdConfig> {
    Map::new(
        |k: Seq<char>| exists|i: int| 0 <= i < s.len() && (#[trigger] s[i]).0@ == k,
        |k: Seq<char>| s[choose|i: int| 0 <= i < s.len() && (#[trigger] s[i]).0@ == k].1,
    )
}

pub open spec fn unique_ids(s: Seq<(String, BirdConfig)>) -> bool {
    forall|i: int, j: int|
        0 <= i < s.len() && 0 <= j < s.len() && (#[trigger] s[i]).0@ == (#[trigger] s[j]).0@ ==> i == j
}

/// The agents after `b` is appended to `s` and, when that takes them over
/// `cap`, one agent is evicted by `policy`: the first, or the one at `k`.
pub open spec fn admitted(s: Seq<Bird>, b: Bird, cap: nat, policy: EvictionPolicy, k: int) -> Seq<Bird> {
    let grown = s.push(b);
    if grown.len() <= cap {
        grown
    } else {
        match policy {
            EvictionPolicy::OldestFirst => grown.remove(0),
            EvictionPolicy::UniformRandom => grown.remove(k),
        }
    }
}

/// A velocity or acceleration as the random source draws it for a new agent:
/// `x` in `(-1, 0]` and `y` in `[0, 1)`.
pub open spec fn drawn_motion(v: (int, int)) -> bool {
    -SCALE < v.0 <= 0 && 0 <= v.1 < SCALE
}

/// Keeps the agents of every species but `id`.
pub open spec fn not_of_species(id: Seq<char>) -> spec_fn(Bird) -> bool {
    |b: Bird| b.config_id@ != id
}

/// The pre-tick snapshot: every agent after the border rule of its species.
pub open spec fn tick_snapshot(
    birds: Seq<Bird>,
    configs: Map<Seq<char>, BirdConfig>,
    width: int,
    height: int,
) -> Seq<Bird> {
    birds.map_values(|b: Bird| wrapped_bird(b, configs[b.config_id@], width, height))
}

/// Entry `t` of the vertex buffer of `birds`: agent `t / 12`, corner
/// `(t % 12) / 3`, coordinate `t % 3` (x, y, then a zero z).
pub open spec fn vertex_entry(birds: Seq<Bird>, configs: Map<Seq<char>, BirdConfig>, t: int) -> int {
    let b = birds[t / 12];
    let v = vertices(b, configs[b.config_id@])[(t % 12) / 3];
    if t % 3 == 0 {
        v.0
    } else if t % 3 == 1 {
        v.1
    } else {
        0
    }
}

/// Entry `t` of the colour buffer of `birds`: the colour of agent `t / 12`,
/// channel `t % 3`, repeated for each of its four corners.
pub open spec fn color_entry(birds: Seq<Bird>, configs: Map<Seq<char>, BirdConfig>, t: int) -> int {
    let cfg = configs[birds[t / 12].config_id@];
    if t % 3 == 0 {
        cfg.color_r as int
    } else if t % 3 == 1 {
        cfg.color_g as int
    } else {
        cfg.color_b as int
    }
}

/// A tick gives agent A the same new state whether another agent B stands,
/// and so is processed, before or after it: exchanging the two in the agent
/// sequence exchanges their entries of the pre-tick snapshot, and a step
/// reads the snapshot only as a collection.
pub proof fn lemma_flock_tick_is_order_independent(
    birds: Seq<Bird>,
    configs: Map<Seq<char>, BirdConfig>,
    width: int,
    height: int,
    dt: int,
    a: int,
    b: int,
)
    requires
        0 <= a < birds.len(),
        0 <= b < birds.len(),
    ensures
        ({
            let exchanged = birds.update(a, birds[b]).update(b, birds[a]);
            let s1 = tick_snapshot(birds, configs, width, height);
            let s2 = tick_snapshot(exchanged, configs, width, height);
            let cfg = configs[birds[a].config_id@];
            &&& stepped_position(s2[b], s2, cfg, dt) == stepped_position(s1[a], s1, cfg, dt)
            &&& stepped_velocity(s2[b], s2, cfg, dt) == stepped_velocity(s1[a], s1, cfg, dt)
        }),
{
    let exchanged = birds.update(a, birds[b]).update(b, birds[a]);
    let s1 = tick_snapshot(birds, configs, width, height);
    let s2 = tick_snapshot(exchanged, configs, width, height);
    assert(s2 =~= s1.update(a, s1[b]).update(b, s1[a]));
    let cfg = configs[birds[a].config_id@];
    lemma_tick_is_order_independent(s1[a], s1, cfg, dt, a, b);
}

/// The first `len` vertex buffer entries of one agent whose corners are `vs`.
pub open spec fn corner_entries(vs: Seq<Vec2>, len: int) -> Seq<i64> {
    Seq::new(
        len as nat,
        |j: int|
            if j % 3 == 0 {
                vs[j / 3].x
            } else if j % 3 == 1 {
                vs[j / 3].y
            } else {
                0i64
            },
    )
}

/// The first `len` colour buffer entries of one agent of species `cfg`.
pub open spec fn color_entries(cfg: BirdConfig, len: int) -> Seq<i64> {
    Seq::new(
        len as nat,
        |j: int|
            if j % 3 == 0 {
                cfg.color_r
            } else if j % 3 == 1 {
                cfg.color_g
            } else {
                cfg.color_b
            },
    )
}

/// The spatial index of the agents' positions.
fn index_of(birds: &Vec<Bird>) -> (r: SpatialIndex)
    requires
        all_bounded(birds@),
    ensures
        r.wf(),
        r@ == positions(birds@),
{
    let mut points: Vec<Vec2> = Vec::new();
    let mut i: usize = 0;
    while i < birds.len()
        invariant
            i <= birds@.len(),
            all_bounded(birds@),
            points@.len() == i,
            forall|j: int| 0 <= j < i ==> #[trigger] points@[j] == birds@[j].position,
        decreases birds@.len() - i,
    {
        assert(birds@[i as int].bounded());
        points.push(birds[i].position);
        i += 1;
    }
    let r = SpatialIndex::build(&points);
    assert(r@ =~= positions(birds@));
    r
}

proof fn lemma_table_at(s: Seq<(String, BirdConfig)>, i: int)
    requires
        unique_ids(s),
        0 <= i < s.len(),
    ensures
        table(s).contains_key(s[i].0@),
        table(s)[s[i].0@] == s[i].1,
{
    let k = s[i].0@;
    assert(exists|j: int| 0 <= j < s.len() && (#[trigger] s[j]).0@ == k);
    let j = choose|j: int| 0 <= j < s.len() && (#[trigger] s[j]).0@ == k;
    assert(i == j);
}

/// A flock of agents: the agents, the species table, a capacity with its
/// eviction policy, and a seeded random source. The agents are indexed by
/// position; the index is rebuilt whenever they move.
pub struct Flock {
    birds: Vec<Bird>,
    index: SpatialIndex,
    configs: Vec<(String, BirdConfig)>,
    rng: oorandom::Rand32,
    max_flock_size: usize,
    policy: EvictionPolicy,
}

impl View for Flock {
    type V = Seq<Bird>;

    closed spec fn view(&self) -> Seq<Bird> {
        self.birds@
    }
}

impl Flock {
    /// The species table.
    pub closed spec fn configs(&self) -> Map<Seq<char>, BirdConfig> {
        table(self.configs@)
    }

    pub closed spec fn capacity(&self) -> nat {
        self.max_flock_size as nat
    }

    pub closed spec fn policy(&self) -> EvictionPolicy {
        self.policy
    }

    /// The state of the flock's random source.
    pub closed spec fn random_source(&self) -> oorandom::Rand32 {
        self.rng
    }

    pub closed spec fn wf(&self) -> bool {
        &&& self.birds@.len() <= self.max_flock_size
        &&& self.max_flock_size < u32::MAX
        &&& all_bounded(self.birds@)
        &&& forall|j: int|
            0 <= j < self.birds@.len() ==> table(self.configs@).contains_key(
                (#[trigger] self.birds@[j]).config_id@,
            )
        &&& forall|k: Seq<char>| #[trigger]
            table(self.configs@).contains_key(k) ==> table(self.configs@)[k].valid()
        &&& unique_ids(self.configs@)
        &&& self.index.wf()
        &&& self.index@ == positions(self.birds@)
    }

    /// An empty flock holding at most `max_flock_size` agents, evicting by
    /// `policy`, with its random source seeded by `seed`.
    pub fn new(max_flock_size: usize, seed: u64, policy: EvictionPolicy) -> (r: Flock)
        requires
            max_flock_size < u32::MAX,
        ensures
            r.wf(),
            r@ == Seq::<Bird>::empty(),
            r.configs() == Map::<Seq<char>, BirdConfig>::empty(),
            r.capacity() == max_flock_size,
            r.policy() == policy,
    {
        let birds: Vec<Bird> = Vec::new();
        let points: Vec<Vec2> = Vec::new();
        let index = SpatialIndex::build(&points);
        assert(positions(birds@) =~= points@.map_values(|v: Vec2| v@));
        let r = Flock {
            birds,
            index,
            configs: Vec::new(),
            rng: oorandom::Rand32::new(seed),
            max_flock_size,
            policy,
        };
        assert(r.configs() =~= Map::<Seq<char>, BirdConfig>::empty());
        r
    }

    /// The agents, oldest first.
    pub fn birds(&self) -> (r: &Vec<Bird>)
        ensures
            r@ == self@,
    {
        &self.birds
    }

    pub fn max_flock_size(&self) -> (r: usize)
        ensures
            r == self.capacity(),
    {
        self.max_flock_size
    }

    pub fn eviction_policy(&self) -> (r: EvictionPolicy)
        ensures
            r == self.policy(),
    {
        self.policy
    }

    pub fn get_current_flock_size(&self) -> (r: usize)
        ensures
            r == self@.len(),
    {
        self.birds.len()
    }

    /// The position in the table of the entry for `config_id`, if any.
    fn find_config(&self, config_id: &String) -> (r: Option<usize>)
        requires
            unique_ids(self.configs@),
        ensures
            r is None <==> !self.configs().contains_key(config_id@),
            r matches Some(i) ==> i < self.configs@.len() && self.configs@[i as int].0@ == config_id@
                && self.configs()[config_id@] == self.configs@[i as int].1,
    {
        let mut i: usize = 0;
        while i < self.configs.len()
            invariant
                i <= self.configs@.len(),
                unique_ids(self.configs@),
                forall|j: int| 0 <= j < i ==> (#[trigger] self.configs@[j]).0@ != config_id@,
            decreases self.configs@.len() - i,
        {
            if self.configs[i].0 == *config_id {
                proof {
                    lemma_table_at(self.configs@, i as int);
                }
                return Some(i);
            }
            i += 1;
        }
        None
    }

    /// The config of species `config_id`, if it is registered.
    pub fn config(&self, config_id: &String) -> (r: Option<BirdConfig>)
        requires
            self.wf(),
        ensures
            r is None <==> !self.configs().contains_key(config_id@),
            r matches Some(c) ==> c == self.configs()[config_id@],
    {
        match self.find_config(config_id) {
            Some(i) => Some(self.configs[i].1),
            None => None,
        }
    }

    /// Registers `bird_config` under `config_id`, replacing any config
    /// already registered there.
    pub fn add_bird_config(&mut self, config_id: String, bird_config: BirdConfig)
        requires
            old(self).wf(),
            bird_config.valid(),
        ensures
            final(self).wf(),
            final(self).configs() == old(self).configs().insert(config_id@, bird_config),
            final(self)@ == old(self)@,
            final(self).capacity() == old(self).capacity(),
            final(self).policy() == old(self).policy(),
            final(self).random_source() == old(self).random_source(),
    {
        let ghost s = self.configs@;
        let ghost id = config_id@;
        match self.find_config(&config_id) {
            Some(i) => {
                self.configs.set(i, (config_id, bird_config));
                proof {
                    let s2 = self.configs@;
                    assert(s2 == s.update(i as int, s2[i as int]));
                    assert(unique_ids(s2)) by {
                        assert forall|a: int, b: int|
                            0 <= a < s2.len() && 0 <= b < s2.len() && (#[trigger] s2[a]).0@ == (
                            #[trigger] s2[b]).0@ implies a == b by {
                            assert(s2[a].0@ == s[a].0@);
                            assert(s2[b].0@ == s[b].0@);
                        }
                    }
                    self.lemma_table_replaced(s, i as int, id, bird_config);
                }
            },
            None => {
                self.configs.push((config_id, bird_config));
                proof {
                    let s2 = self.configs@;
                    assert(s2 == s.push(s2[s.len() as int]));
                    assert(unique_ids(s2)) by {
                        assert forall|a: int, b: int|
                            0 <= a < s2.len() && 0 <= b < s2.len() && (#[trigger] s2[a]).0@ == (
                            #[trigger] s2[b]).0@ implies a == b by {
                            if a < s.len() && b == s.len() {
                                assert(table(s).contains_key(s[a].0@));
                            }
                            if b < s.len() && a == s.len() {
                                assert(table(s).contains_key(s[b].0@));
                            }
                        }
                    }
                    self.lemma_table_pushed(s, id, bird_config);
                }
            },
        }
        proof {
            assert forall|j: int| 0 <= j < self.birds@.len() implies table(self.configs@).contains_key(
                (#[trigger] self.birds@[j]).config_id@,
            ) by {
                assert(table(s).contains_key(self.birds@[j].config_id@));
            }
        }
    }

    proof fn lemma_table_replaced(&self, s: Seq<(String, BirdConfig)>, i: int, id: Seq<char>, c: BirdConfig)
        requires
            unique_ids(s),
            unique_ids(self.configs@),
            0 <= i < s.len(),
            s[i].0@ == id,
            self.configs@.len() == s.len(),
            self.configs@[i].0@ == id,
            self.configs@[i].1 == c,
            forall|j: int| 0 <= j < s.len() && j != i ==> #[trigger] self.configs@[j] == s[j],
        ensures
            table(self.configs@) == table(s).insert(id, c),
    {
        let s2 = self.configs@;
        lemma_table_at(s2, i);
        assert forall|k: Seq<char>| #[trigger] table(s2).contains_key(k) <==> table(s).insert(id, c).contains_key(k) by {
            if table(s2).contains_key(k) && k != id {
                let j = choose|j: int| 0 <= j < s2.len() && (#[trigger] s2[j]).0@ == k;
                assert(s[j].0@ == k);
            }
            if table(s).contains_key(k) && k != id {
                let j = choose|j: int| 0 <= j < s.len() && (#[trigger] s[j]).0@ == k;
                assert(s2[j].0@ == k);
            }
        }
        assert forall|k: Seq<char>| #[trigger] table(s2).contains_key(k) implies table(s2)[k] == table(s).insert(id, c)[k] by {
            if k != id {
                let j = choose|j: int| 0 <= j < s2.len() && (#[trigger] s2[j]).0@ == k;
                assert(j != i);
                lemma_table_at(s2, j);
                lemma_table_at(s, j);
            }
        }
        assert(table(s2) =~= table(s).insert(id, c));
    }

    proof fn lemma_table_pushed(&self, s: Seq<(String, BirdConfig)>, id: Seq<char>, c: BirdConfig)
        requires
            unique_ids(self.configs@),
            unique_ids(s),
            !table(s).contains_key(id),
            self.configs@.len() == s.len() + 1,
            self.configs@[s.len() as int].0@ == id,
            self.configs@[s.len() as int].1 == c,
            forall|j: int| 0 <= j < s.len() ==> #[trigger] self.configs@[j] == s[j],
        ensures
            table(self.configs@) == table(s).insert(id, c),
    {
        let s2 = self.configs@;
        lemma_table_at(s2, s.len() as int);
        assert forall|k: Seq<char>| #[trigger] table(s2).contains_key(k) <==> table(s).insert(id, c).contains_key(k) by {
            if table(s2).contains_key(k) && k != id {
                let j = choose|j: int| 0 <= j < s2.len() && (#[trigger] s2[j]).0@ == k;
                assert(s[j].0@ == k);
            }
            if table(s).contains_key(k) && k != id {
                let j = choose|j: int| 0 <= j < s.len() && (#[trigger] s[j]).0@ == k;
                assert(s2[j].0@ == k);
            }
        }
        assert forall|k: Seq<char>| #[trigger] table(s2).contains_key(k) implies table(s2)[k] == table(s).insert(id, c)[k] by {
            if k != id {
                let j = choose|j: int| 0 <= j < s2.len() && (#[trigger] s2[j]).0@ == k;
                assert(j != s.len());
                lemma_table_at(s2, j);
                lemma_table_at(s, j);
            }
        }
        assert(table(s2) =~= table(s).insert(id, c));
    }

    /// Replaces the config of species `config_id`; fails with `NotFound`,
    /// changing nothing, when no config is registered under that id.
    pub fn update_bird_config(&mut self, config_id: String, updated_bird_config: BirdConfig) -> (r: Result<(), FlockError>)
        requires
            old(self).wf(),
            updated_bird_config.valid(),
        ensures
            final(self).wf(),
            r is Err <==> !old(self).configs().contains_key(config_id@),
            r matches Err(e) ==> e == FlockError::NotFound,
            r is Ok ==> final(self).configs() == old(self).configs().insert(config_id@, updated_bird_config),
            r is Err ==> *final(self) == *old(self),
            final(self)@ == old(self)@,
            final(self).random_source() == old(self).random_source(),
            final(self).capacity() == old(self).capacity(),
            final(self).policy() == old(self).policy(),
    {
        if self.find_config(&config_id).is_none() {
            return Err(FlockError::NotFound);
        }
        self.add_bird_config(config_id, updated_bird_config);
        Ok(())
    }

    /// Appends `bird`, then, if the flock is over capacity, evicts one agent
    /// by the policy.
    fn insert_bird(&mut self, bird: Bird)
        requires
            old(self).wf(),
            bird.bounded(),
            old(self).configs().contains_key(bird.config_id@),
        ensures
            final(self).wf(),
            exists|k: int|
                0 <= k <= old(self)@.len() && final(self)@ == admitted(
                    old(self)@,
                    bird,
                    old(self).capacity(),
                    old(self).policy(),
                    k,
                ),
            final(self).configs() == old(self).configs(),
            final(self).capacity() == old(self).capacity(),
            final(self).policy() == old(self).policy(),
    {
        let ghost before = self.birds@;
        self.birds.push(bird);
        let mut k: usize = 0;
        if self.birds.len() > self.max_flock_size {
            let n = self.birds.len();
            k = match self.policy {
                EvictionPolicy::OldestFirst => 0,
                EvictionPolicy::UniformRandom => self.rng.rand_range(core::ops::Range { start: 0, end: n as u32 }) as usize,
            };
            self.birds.remove(k);
        }
        assert(self.birds@ == admitted(before, bird, self.max_flock_size as nat, self.policy, k as int));
        proof {
            let grown = before.push(bird);
            assert forall|j: int| 0 <= j < self.birds@.len() implies (#[trigger] self.birds@[j]).bounded()
                && table(self.configs@).contains_key(self.birds@[j].config_id@) by {
                if grown.len() > self.max_flock_size {
                    assert(self.birds@[j] == grown[if j < k { j } else { j + 1 }]);
                }
                assert(grown[j] == before[j] || grown[j] == bird);
            }
        }
        self.index = index_of(&self.birds);
        assert(0 <= k <= before.len() && self@ == admitted(before, bird, self.capacity(), self.policy(), k as int));
        assert(exists|k: int| 0 <= k <= before.len() && self@ == admitted(before, bird, self.capacity(), self.policy(), k));
        assert(before == old(self)@);
        assert(self.capacity() == old(self).capacity());
        assert(self.policy() == old(self).policy());
    }

    /// Inserts an agent of species `config_id` at `position` with the given
    /// motion. Fails with `UnknownSpecies`, changing nothing, when the
    /// species has no config. Over capacity, one agent is evicted.
    pub fn add_bird_with_motion(
        &mut self,
        config_id: String,
        position: Vec2,
        velocity: Vec2,
        acceleration: Vec2,
    ) -> (r: Result<(), FlockError>)
        requires
            old(self).wf(),
            old(self).configs().contains_key(config_id@) ==> in_box(position@, COORD_LIMIT as int)
                && in_box(velocity@, COORD_LIMIT as int) && in_box(acceleration@, COORD_LIMIT as int),
        ensures
            final(self).wf(),
            final(self)@.len() <= final(self).capacity(),
            r is Err <==> !old(self).configs().contains_key(config_id@),
            r matches Err(e) ==> e == FlockError::UnknownSpecies && *final(self) == *old(self),
            r is Ok ==> exists|k: int|
                0 <= k <= old(self)@.len() && final(self)@ == admitted(
                    old(self)@,
                    Bird { position, velocity, acceleration, config_id },
                    old(self).capacity(),
                    old(self).policy(),
                    k,
                ),
            final(self).configs() == old(self).configs(),
            final(self).capacity() == old(self).capacity(),
            final(self).policy() == old(self).policy(),
    {
        if self.find_config(&config_id).is_none() {
            return Err(FlockError::UnknownSpecies);
        }
        self.insert_bird(Bird { position, velocity, acceleration, config_id });
        Ok(())
    }

    /// Inserts an agent of species `config_id` at `(pos_x, pos_y)` whose
    /// velocity and acceleration are drawn from the flock's random source.
    /// Fails with `UnknownSpecies`, changing nothing and drawing nothing, when
    /// the species has no config. Over capacity, one agent is evicted.
    pub fn add_bird(&mut self, config_id: String, pos_x: i64, pos_y: i64) -> (r: Result<(), FlockError>)
        requires
            old(self).wf(),
            old(self).configs().contains_key(config_id@) ==> in_box(
                (pos_x as int, pos_y as int),
                COORD_LIMIT as int,
            ),
        ensures
            final(self).wf(),
            final(self)@.len() <= final(self).capacity(),
            r is Err <==> !old(self).configs().contains_key(config_id@),
            r matches Err(e) ==> e == FlockError::UnknownSpecies && *final(self) == *old(self),
            r is Ok ==> exists|b: Bird, k: int|
                b.position@ == (pos_x as int, pos_y as int) && b.config_id == config_id && drawn_motion(
                    b.velocity@,
                ) && drawn_motion(b.acceleration@) && 0 <= k <= old(self)@.len() && final(self)@ == admitted(
                    old(self)@,
                    b,
                    old(self).capacity(),
                    old(self).policy(),
                    k,
                ),
            final(self).configs() == old(self).configs(),
            final(self).capacity() == old(self).capacity(),
            final(self).policy() == old(self).policy(),
    {
        if self.find_config(&config_id).is_none() {
            return Err(FlockError::UnknownSpecies);
        }
        let velocity = self.draw_motion();
        let acceleration = self.draw_motion();
        let bird = Bird { position: Vec2::new(pos_x, pos_y), velocity, acceleration, config_id };
        let ghost before = self@;
        let ghost cap = self.capacity();
        let ghost policy = self.policy();
        assert(before == old(self)@);
        assert(cap == old(self).capacity());
        assert(policy == old(self).policy());
        self.insert_bird(bird);
        proof {
            let k = choose|k: int| 0 <= k <= before.len() && self@ == admitted(before, bird, cap, policy, k);
            assert(bird.position@ == (pos_x as int, pos_y as int));
            assert(exists|b: Bird, k: int|
                b.position@ == (pos_x as int, pos_y as int) && b.config_id == config_id && drawn_motion(
                    b.velocity@,
                ) && drawn_motion(b.acceleration@) && 0 <= k <= before.len() && self@ == admitted(
                    before,
                    b,
                    cap,
                    policy,
                    k,
                ));
        }
        Ok(())
    }

    /// Inserts an agent of species `config_id` at a position drawn from the
    /// flock's random source within the `width` by `height` arena centred
    /// on the origin; otherwise as `add_bird`.
    pub fn add_bird_at_random_position(&mut self, config_id: String, width: i64, height: i64) -> (r: Result<
        (),
        FlockError,
    >)
        requires
            old(self).wf(),
            old(self).configs().contains_key(config_id@) ==> 0 <= width <= ARENA_LIMIT && 0 <= height
                <= ARENA_LIMIT,
        ensures
            final(self).wf(),
            final(self)@.len() <= final(self).capacity(),
            r is Err <==> !old(self).configs().contains_key(config_id@),
            r matches Err(e) ==> e == FlockError::UnknownSpecies && *final(self) == *old(self),
            r is Ok ==> exists|b: Bird, k: int|
                -width <= 2 * b.position.x <= width && -height <= 2 * b.position.y <= height && b.config_id == config_id && drawn_motion(b.velocity@) && drawn_motion(
                    b.acceleration@,
                ) && 0 <= k <= old(self)@.len() && final(self)@ == admitted(
                    old(self)@,
                    b,
                    old(self).capacity(),
                    old(self).policy(),
                    k,
                ),
            final(self).configs() == old(self).configs(),
            final(self).capacity() == old(self).capacity(),
            final(self).policy() == old(self).policy(),
    {
        if self.find_config(&config_id).is_none() {
            return Err(FlockError::UnknownSpecies);
        }
        let x = self.draw_coordinate(width);
        let y = self.draw_coordinate(height);
        let velocity = self.draw_motion();
        let acceleration = self.draw_motion();
        let bird = Bird { position: Vec2::new(x, y), velocity, acceleration, config_id };
        let ghost before = self@;
        let ghost cap = self.capacity();
        let ghost policy = self.policy();
        assert(before == old(self)@);
        assert(cap == old(self).capacity());
        assert(policy == old(self).policy());
        self.insert_bird(bird);
        proof {
            let k = choose|k: int| 0 <= k <= before.len() && self@ == admitted(before, bird, cap, policy, k);
            assert(exists|b: Bird, k: int|
                -width <= 2 * b.position.x <= width && -height <= 2 * b.position.y <= height && b.config_id == config_id && drawn_motion(b.velocity@)
                    && drawn_motion(b.acceleration@) && 0 <= k <= before.len() && self@ == admitted(
                    before,
                    b,
                    cap,
                    policy,
                    k,
                ));
        }
        Ok(())
    }

    /// A coordinate drawn from `[-extent / 2, extent / 2]`.
    fn draw_coordinate(&mut self, extent: i64) -> (r: i64)
        requires
            0 <= extent <= ARENA_LIMIT,
        ensures
            -extent <= 2 * r <= extent,
            final(self).birds == old(self).birds,
            final(self).index == old(self).index,
            final(self).configs == old(self).configs,
            final(self).max_flock_size == old(self).max_flock_size,
            final(self).policy == old(self).policy,
    {
        let u = self.rng.rand_range(core::ops::Range { start: 0, end: SCALE as u32 }) as i64;
        assert(0 <= u * extent <= SCALE * extent) by (nonlinear_arith)
            requires
                0 <= u < SCALE,
                0 <= extent,
        ;
        let off = u * extent / SCALE;
        assert(off <= extent && (extent > 0 ==> off < extent)) by (nonlinear_arith)
            requires
                off == u * extent / (SCALE as int),
                0 <= u < SCALE,
                0 <= u * extent <= SCALE * extent,
                0 <= extent,
        ;
        off - extent / 2
    }

    /// A velocity or acceleration drawn for a new agent.
    fn draw_motion(&mut self) -> (r: Vec2)
        ensures
            drawn_motion(r@),
            final(self).birds == old(self).birds,
            final(self).index == old(self).index,
            final(self).configs == old(self).configs,
            final(self).max_flock_size == old(self).max_flock_size,
            final(self).policy == old(self).policy,
    {
        let x = self.rng.rand_range(core::ops::Range { start: 0, end: SCALE as u32 }) as i64;
        let y = self.rng.rand_range(core::ops::Range { start: 0, end: SCALE as u32 }) as i64;
        Vec2::new(-x, y)
    }

    /// Removes the config of species `config_id` together with every agent
    /// of that species, so that no agent is left without a config.
    pub fn remove_bird_config(&mut self, config_id: String)
        requires
            old(self).wf(),
        ensures
            final(self).wf(),
            final(self).configs() == old(self).configs().remove(config_id@),
            final(self)@ == old(self)@.filter(not_of_species(config_id@)),
            final(self).capacity() == old(self).capacity(),
            final(self).policy() == old(self).policy(),
            final(self).random_source() == old(self).random_source(),
    {
        let ghost birds = self.birds@;
        let ghost id = config_id@;
        let ghost s = self.configs@;
        let mut kept: Vec<Bird> = Vec::new();
        let mut i: usize = 0;
        while i < self.birds.len()
            invariant
                i <= birds.len(),
                id == config_id@,
                self.birds@ == birds,
                self.configs@ == s,
                all_bounded(birds),
                forall|j: int| 0 <= j < birds.len() ==> table(s).contains_key((#[trigger] birds[j]).config_id@),
                kept@ == birds.subrange(0, i as int).filter(not_of_species(id)),
                forall|j: int|
                    0 <= j < kept@.len() ==> (#[trigger] kept@[j]).bounded() && kept@[j].config_id@ != id
                        && table(s).contains_key(kept@[j].config_id@),
            decreases birds.len() - i,
        {
            let ghost prefix = birds.subrange(0, i + 1);
            assert(prefix.drop_last() == birds.subrange(0, i as int));
            assert(prefix.last() == birds[i as int]);
            assert(birds[i as int].bounded());
            let ghost p = not_of_species(id);
            proof {
                reveal(Seq::filter);
                assert(prefix.filter(p) == (if p(prefix.last()) {
                    prefix.drop_last().filter(p).push(prefix.last())
                } else {
                    prefix.drop_last().filter(p)
                }));
            }
            let ghost before = kept@;
            let same = self.birds[i].config_id == config_id;
            assert(p(birds[i as int]) == (birds[i as int].config_id@ != id));
            if !same {
                let b = self.birds[i].duplicate();
                kept.push(b);
                assert(kept@ == before.push(birds[i as int]));
                assert(kept@[kept@.len() - 1] == birds[i as int]);
            }
            i += 1;
        }
        assert(birds.subrange(0, i as int) == birds);
        self.birds = kept;
        match self.find_config(&config_id) {
            Some(k) => {
                self.configs.remove(k);
                proof {
                    self.lemma_table_removed(s, k as int, id);
                }
            },
            None => {
                assert(table(s) =~= table(s).remove(id));
            },
        }
        self.index = index_of(&self.birds);
        proof {
            assert forall|j: int| 0 <= j < self.birds@.len() implies table(self.configs@).contains_key(
                (#[trigger] self.birds@[j]).config_id@,
            ) by {
                assert(self.birds@[j].config_id@ != id);
            }
            assert(self.birds@.len() <= birds.len()) by {
                broadcast use vstd::seq_lib::group_filter_ensures;
            }
        }
    }

    proof fn lemma_table_removed(&self, s: Seq<(String, BirdConfig)>, i: int, id: Seq<char>)
        requires
            unique_ids(s),
            0 <= i < s.len(),
            s[i].0@ == id,
            self.configs@ == s.remove(i),
        ensures
            table(self.configs@) == table(s).remove(id),
            unique_ids(self.configs@),
    {
        let s2 = self.configs@;
        assert forall|j: int| 0 <= j < s2.len() implies #[trigger] s2[j] == s[if j < i { j } else { j + 1 }] by {}
        assert forall|a: int, b: int|
            0 <= a < s2.len() && 0 <= b < s2.len() && (#[trigger] s2[a]).0@ == (#[trigger] s2[b]).0@ implies a
            == b by {
            let a1 = if a < i { a } else { a + 1 };
            let b1 = if b < i { b } else { b + 1 };
            assert(s2[a] == s[a1] && s2[b] == s[b1]);
        }
        assert forall|k: Seq<char>| #[trigger] table(s2).contains_key(k) <==> table(s).remove(id).contains_key(k) by {
            if table(s2).contains_key(k) {
                let j = choose|j: int| 0 <= j < s2.len() && (#[trigger] s2[j]).0@ == k;
                let j1 = if j < i { j } else { j + 1 };
                assert(s[j1].0@ == k);
                assert(j1 != i);
            }
            if table(s).contains_key(k) && k != id {
                let j = choose|j: int| 0 <= j < s.len() && (#[trigger] s[j]).0@ == k;
                assert(j != i);
                let j2 = if j < i { j } else { j - 1 };
                assert(s2[j2] == s[j]);
            }
        }
        assert forall|k: Seq<char>| #[trigger] table(s2).contains_key(k) implies table(s2)[k] == table(s).remove(id)[k] by {
            let j = choose|j: int| 0 <= j < s2.len() && (#[trigger] s2[j]).0@ == k;
            let j1 = if j < i { j } else { j + 1 };
            lemma_table_at(s2, j);
            lemma_table_at(s, j1);
        }
        assert(table(s2) =~= table(s).remove(id));
    }

    /// Sets the capacity to `max_flock_size`, first evicting agents by the
    /// policy, one at a time, until the flock fits.
    pub fn set_max_flock_size(&mut self, max_flock_size: usize)
        requires
            old(self).wf(),
            max_flock_size < u32::MAX,
        ensures
            final(self).wf(),
            final(self).capacity() == max_flock_size,
            final(self).configs() == old(self).configs(),
            final(self).policy() == old(self).policy(),
            old(self)@.len() <= max_flock_size ==> final(self).random_source() == old(
                self,
            ).random_source(),
            old(self)@.len() <= max_flock_size ==> final(self)@ == old(self)@,
            old(self)@.len() > max_flock_size ==> final(self)@.len() == max_flock_size,
            old(self)@.len() > max_flock_size && old(self).policy() == EvictionPolicy::OldestFirst
                ==> final(self)@ == old(self)@.subrange(
                old(self)@.len() - max_flock_size,
                old(self)@.len() as int,
            ),
            final(self)@.to_multiset().subset_of(old(self)@.to_multiset()),
    {
        broadcast use vstd::multiset::group_multiset_axioms, vstd::seq_lib::group_to_multiset_ensures;

        let ghost birds = self.birds@;
        let ghost s = self.configs@;
        while self.birds.len() > max_flock_size
            invariant
                self.configs@ == s,
                self.policy == old(self).policy,
                self.birds@.len() <= birds.len() <= old(self).max_flock_size,
                old(self).max_flock_size < u32::MAX,
                birds == old(self).birds@,
                birds.len() <= max_flock_size ==> self.birds@ == birds && self.rng == old(self).rng,
                birds.len() > max_flock_size ==> self.birds@.len() >= max_flock_size,
                self.policy == EvictionPolicy::OldestFirst ==> self.birds@ == birds.subrange(
                    birds.len() - self.birds@.len(),
                    birds.len() as int,
                ),
                self.birds@.to_multiset().subset_of(birds.to_multiset()),
                all_bounded(self.birds@),
                forall|j: int|
                    0 <= j < self.birds@.len() ==> table(s).contains_key((#[trigger] self.birds@[j]).config_id@),
            decreases self.birds@.len(),
        {
            let n = self.birds.len();
            let k: usize = match self.policy {
                EvictionPolicy::OldestFirst => 0,
                EvictionPolicy::UniformRandom => self.rng.rand_range(core::ops::Range { start: 0, end: n as u32 }) as usize,
            };
            let ghost cur = self.birds@;
            self.birds.remove(k);
            proof {
                assert(0 <= k < cur.len());
                cur.to_multiset_ensures();
                assert(cur.remove(k as int).to_multiset() =~= cur.to_multiset().remove(cur[k as int]));
                assert forall|j: int| 0 <= j < self.birds@.len() implies #[trigger] self.birds@[j] == cur[if j < k { j } else { j + 1 }] by {}
                assert forall|j: int| 0 <= j < self.birds@.len() implies (#[trigger] self.birds@[j]).bounded() && table(s).contains_key(self.birds@[j].config_id@) by {
                    let j1 = if j < k { j } else { j + 1 };
                    assert(self.birds@[j] == cur[j1]);
                }
                if self.policy == EvictionPolicy::OldestFirst {
                    assert(self.birds@ =~= birds.subrange(birds.len() - self.birds@.len(), birds.len() as int));
                }
            }
        }
        self.max_flock_size = max_flock_size;
        self.index = index_of(&self.birds);
        proof {
            if birds.len() <= max_flock_size {
                assert(self.birds@ == birds);
            }
        }
    }

    /// The config of a registered species.
    fn config_of(&self, config_id: &String) -> (r: BirdConfig)
        requires
            self.wf(),
            self.configs().contains_key(config_id@),
        ensures
            r == self.configs()[config_id@],
            r.valid(),
    {
        match self.find_config(config_id) {
            Some(i) => self.configs[i].1,
            None => {
                assert(false);
                self.configs[0].1
            },
        }
    }

    /// One tick in a `width` by `height` arena: every agent takes the border
    /// rule, the snapshot of the result is indexed, every agent steps against
    /// that one snapshot, and the index is rebuilt from the new states.
    /// Returns the vertex buffer and the colour buffer, twelve entries per
    /// agent in agent order.
    pub fn update(&mut self, width: i64, height: i64, time_step: i64) -> (r: (Vec<i64>, Vec<i64>))
        requires
            old(self).wf(),
            0 <= width <= ARENA_LIMIT,
            0 <= height <= ARENA_LIMIT,
            0 <= time_step <= STEP_LIMIT,
        ensures
            final(self).wf(),
            final(self).configs() == old(self).configs(),
            final(self).capacity() == old(self).capacity(),
            final(self).policy() == old(self).policy(),
            final(self).random_source() == old(self).random_source(),
            final(self)@.len() == old(self)@.len(),
            forall|i: int|
                0 <= i < old(self)@.len() ==> {
                    let snap = tick_snapshot(old(self)@, old(self).configs(), width as int, height as int);
                    let cfg = old(self).configs()[old(self)@[i].config_id@];
                    &&& (#[trigger] final(self)@[i]).position@ == stepped_position(snap[i], snap, cfg, time_step as int)
                    &&& final(self)@[i].velocity@ == stepped_velocity(snap[i], snap, cfg, time_step as int)
                    &&& final(self)@[i].acceleration@ == (0int, 0int)
                    &&& final(self)@[i].config_id == old(self)@[i].config_id
                },
            r.0@.len() == 12 * old(self)@.len(),
            r.1@.len() == 12 * old(self)@.len(),
            forall|t: int|
                0 <= t < r.0@.len() ==> #[trigger] r.0@[t] == vertex_entry(final(self)@, final(self).configs(), t),
            forall|t: int|
                0 <= t < r.1@.len() ==> #[trigger] r.1@[t] == color_entry(final(self)@, final(self).configs(), t),
    {
        let n = self.birds.len();
        let ghost table = self.configs();
        let ghost snap = tick_snapshot(self.birds@, table, width as int, height as int);
        let mut snapshot: Vec<Bird> = Vec::new();
        let mut i: usize = 0;
        while i < n
            invariant
                n == self.birds@.len(),
                self.wf(),
                table == self.configs(),
                snap == tick_snapshot(self.birds@, table, width as int, height as int),
                0 <= width <= ARENA_LIMIT,
                0 <= height <= ARENA_LIMIT,
                i <= n,
                snapshot@.len() == i,
                forall|j: int| 0 <= j < i ==> #[trigger] snapshot@[j] == snap[j],
                forall|j: int|
                    0 <= j < i ==> in_box((#[trigger] snapshot@[j]).position@, (COORD_LIMIT - MOVE_LIMIT) as int)
                        && snapshot@[j].bounded(),
            decreases n - i,
        {
            let mut b = self.birds[i].duplicate();
            assert(self.birds@[i as int].bounded());
            assert(table.contains_key(b.config_id@));
            let cfg = self.config_of(&b.config_id);
            b.borders(&cfg, width, height);
            proof {
                assert(half_extent(width as int) + margin(cfg) <= COORD_LIMIT - MOVE_LIMIT);
                assert(half_extent(height as int) + margin(cfg) <= COORD_LIMIT - MOVE_LIMIT);
            }
            snapshot.push(b);
            i += 1;
        }
        assert(snapshot@ =~= snap);
        let index = index_of(&snapshot);
        let mut next: Vec<Bird> = Vec::new();
        let mut verts: Vec<i64> = Vec::new();
        let mut colors: Vec<i64> = Vec::new();
        i = 0;
        while i < n
            invariant
                n == self.birds@.len(),
                n == snapshot@.len(),
                self.wf(),
                table == self.configs(),
                snapshot@ == snap,
                snap == tick_snapshot(self.birds@, table, width as int, height as int),
                all_bounded(snapshot@),
                forall|j: int|
                    0 <= j < n ==> in_box((#[trigger] snapshot@[j]).position@, (COORD_LIMIT - MOVE_LIMIT) as int),
                index.wf(),
                index@ == positions(snapshot@),
                0 <= time_step <= STEP_LIMIT,
                i <= n,
                next@.len() == i,
                verts@.len() == 12 * i,
                colors@.len() == 12 * i,
                forall|j: int|
                    0 <= j < i ==> {
                        let cfg = table[self.birds@[j].config_id@];
                        &&& (#[trigger] next@[j]).position@ == stepped_position(snap[j], snap, cfg, time_step as int)
                        &&& next@[j].velocity@ == stepped_velocity(snap[j], snap, cfg, time_step as int)
                        &&& next@[j].acceleration@ == (0int, 0int)
                        &&& next@[j].config_id == self.birds@[j].config_id
                        &&& next@[j].bounded()
                    },
                forall|t: int| 0 <= t < 12 * i ==> #[trigger] verts@[t] == vertex_entry(next@, table, t),
                forall|t: int| 0 <= t < 12 * i ==> #[trigger] colors@[t] == color_entry(next@, table, t),
            decreases n - i,
        {
            let mut b = snapshot[i].duplicate();
            assert(snap[i as int].config_id == self.birds@[i as int].config_id);
            let cfg = self.config_of(&b.config_id);
            b.update_bird(&index, &snapshot, &cfg, time_step);
            let vs = b.get_vertices(&cfg);
            let ghost before_next = next@;
            let ghost before_verts = verts@;
            let ghost before_colors = colors@;
            let mut k: usize = 0;
            while k < 4
                invariant
                    k <= 4,
                    vs@.len() == 4,
                    verts@ == before_verts + corner_entries(vs@, 3 * k),
                    colors@ == before_colors + color_entries(cfg, 3 * k),
                decreases 4 - k,
            {
                verts.push(vs[k].x);
                verts.push(vs[k].y);
                verts.push(0);
                colors.push(cfg.color_r);
                colors.push(cfg.color_g);
                colors.push(cfg.color_b);
                proof {
                    let k3 = 3 * k as int;
                    assert(k3 / 3 == k && k3 % 3 == 0 && (k3 + 1) / 3 == k && (k3 + 1) % 3 == 1 && (k3 + 2) / 3
                        == k && (k3 + 2) % 3 == 2) by (nonlinear_arith)
                        requires
                            k3 == 3 * k,
                            k >= 0,
                    ;
                    assert(verts@ =~= before_verts + corner_entries(vs@, k3 + 3));
                    assert(colors@ =~= before_colors + color_entries(cfg, k3 + 3));
                }
                k += 1;
            }
            next.push(b);
            proof {
                assert(next@ == before_next.push(b));
                assert(next@[i as int] == b);
                assert(vertices(b, table[b.config_id@]) == vertices(b, cfg));
                assert forall|t: int| 0 <= t < 12 * (i + 1) implies #[trigger] verts@[t] == vertex_entry(next@, table, t)
                    && colors@[t] == color_entry(next@, table, t) by {
                    if t < 12 * i {
                        assert(0 <= t / 12 < i) by (nonlinear_arith)
                            requires
                                0 <= t < 12 * i,
                        ;
                        assert(next@[t / 12] == before_next[t / 12]);
                        assert(verts@[t] == before_verts[t]);
                        assert(colors@[t] == before_colors[t]);
                    } else {
                        let j = t - 12 * i;
                        assert(t / 12 == i && t % 12 == j && (t % 12) / 3 == j / 3 && t % 3 == j % 3 && 0 <= j / 3
                            < 4) by (nonlinear_arith)
                            requires
                                j == t - 12 * i,
                                0 <= j < 12,
                                i >= 0,
                        ;
                        assert(verts@[t] == corner_entries(vs@, 12)[j]);
                        assert(colors@[t] == color_entries(cfg, 12)[j]);
                        assert(vs@[j / 3]@ == vertices(b, cfg)[j / 3]);
                    }
                }
                assert forall|t: int| 0 <= t < 12 * (i + 1) implies #[trigger] colors@[t] == color_entry(next@, table, t) by {
                    assert(verts@[t] == vertex_entry(next@, table, t));
                }
            }
            i += 1;
        }
        self.birds = next;
        self.index = index_of(&self.birds);
        (verts, colors)
    }
}

} // verus!
