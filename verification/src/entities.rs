//! The materialized entities, as far as reconciliation reads them, and what
//! it asks the host to do to them.
//!
//! The host owns the entities and their records. Reconciliation reads one
//! thing of them, the primary key of each in iteration order, and answers with
//! commands: replace the record of the entity at a position, or create an
//! entity. An entity that a command creates takes the next free position, so a
//! later record with the same key finds it.

use crate::component::{PrimaryKey, SqlxColumn, SqlxColumnView};
use crate::event::{status_views, SqlxEventId, SqlxEventStatus, SqlxEventStatusView};
use vstd::prelude::*;

verus! {

/// What reconciliation asks the host to do to its entities.
#[derive(Debug)]
pub enum SqlxEntityCommand<C> {
    /// Replace the record of the entity at this position by the component.
    Insert(usize, C),
    /// Create an entity that holds the component.
    Spawn(C),
}

impl<C> SqlxEntityCommand<C> {
    /// Whether the command can be carried out on `len` entities.
    pub open spec fn fits(self, len: nat) -> bool {
        match self {
            SqlxEntityCommand::Insert(entity, _) => entity < len,
            SqlxEntityCommand::Spawn(_) => true,
        }
    }

    /// The records after the command was carried out on `components`.
    pub open spec fn applied(self, components: Seq<C>) -> Seq<C> {
        match self {
            SqlxEntityCommand::Insert(entity, component) => components.update(
                entity as int,
                component,
            ),
            SqlxEntityCommand::Spawn(component) => components.push(component),
        }
    }

    /// Carries the command out on records that are held in a vector, each at
    /// the position of its entity. A command that does not fit changes nothing.
    pub fn apply(self, components: &mut Vec<C>) -> (fits: bool)
        ensures
            fits == self.fits(old(components)@.len()),
            fits ==> final(components)@ == self.applied(old(components)@),
            !fits ==> final(components)@ == old(components)@,
    {
        match self {
            SqlxEntityCommand::Insert(entity, component) => {
                if entity < components.len() {
                    components[entity] = component;
                    true
                } else {
                    false
                }
            },
            SqlxEntityCommand::Spawn(component) => {
                components.push(component);
                true
            },
        }
    }
}

/// The statuses and the commands that reconciliation hands to the host.
#[derive(Debug)]
pub struct SqlxEffects<C> {
    pub status: Vec<SqlxEventStatus<C>>,
    pub commands: Vec<SqlxEntityCommand<C>>,
}

impl<C> SqlxEffects<C> {
    pub fn new() -> (effects: SqlxEffects<C>)
        ensures
            effects.status@.len() == 0,
            effects.commands@.len() == 0,
    {
        SqlxEffects { status: Vec::new(), commands: Vec::new() }
    }
}

/// The state of a reconciliation pass: the primary keys of the entities, and
/// the statuses and commands emitted so far.
pub struct SqlxPass<C> {
    pub entities: Seq<SqlxColumnView>,
    pub status: Seq<SqlxEventStatusView<C>>,
    pub commands: Seq<SqlxEntityCommand<C>>,
}

impl<C> SqlxPass<C> {
    /// The pass that begins at `entities` and has emitted nothing.
    pub open spec fn begin(entities: Seq<SqlxColumnView>) -> SqlxPass<C> {
        SqlxPass { entities, status: Seq::empty(), commands: Seq::empty() }
    }

    /// This pass, followed by what `next` emitted and with the entities where
    /// `next` left them.
    pub open spec fn followed_by(self, next: SqlxPass<C>) -> SqlxPass<C> {
        SqlxPass {
            entities: next.entities,
            status: self.status + next.status,
            commands: self.commands + next.commands,
        }
    }

    /// The pass after one record of command `id` was merged.
    ///
    /// If an entity has the record's key, the first such entity is updated.
    /// Otherwise an entity is created, and stands last.
    pub open spec fn sync_component(self, id: SqlxEventId, key: SqlxColumnView, component: C)
        -> SqlxPass<C> {
        match self.entities.index_of_first(key) {
            Some(entity) => SqlxPass {
                entities: self.entities,
                status: self.status.push(SqlxEventStatusView::Update(id, key)),
                commands: self.commands.push(SqlxEntityCommand::Insert(entity as usize, component)),
            },
            None => SqlxPass {
                entities: self.entities.push(key),
                status: self.status.push(SqlxEventStatusView::Spawn(id, key)),
                commands: self.commands.push(SqlxEntityCommand::Spawn(component)),
            },
        }
    }

    /// The pass after the records of command `id` were merged, first to last.
    /// `keys` holds the primary key of each.
    pub open spec fn sync(self, id: SqlxEventId, keys: Seq<SqlxColumnView>, components: Seq<C>)
        -> SqlxPass<C>
        decreases components.len(),
    {
        if components.len() == 0 {
            self
        } else {
            self.sync(id, keys.drop_last(), components.drop_last()).sync_component(
                id,
                keys.last(),
                components.last(),
            )
        }
    }
}

/// The primary keys of the materialized entities, in iteration order.
#[derive(Debug)]
pub struct SqlxEntities {
    keys: Vec<SqlxColumn>,
}

impl View for SqlxEntities {
    type V = Seq<SqlxColumnView>;

    closed spec fn view(&self) -> Seq<SqlxColumnView> {
        self.keys@.map_values(|key: SqlxColumn| key@)
    }
}

/// The pass that stands at `entities` and has emitted `effects`.
pub open spec fn pass_at<C>(entities: SqlxEntities, effects: SqlxEffects<C>) -> SqlxPass<C> {
    SqlxPass {
        entities: entities@,
        status: status_views(effects.status@),
        commands: effects.commands@,
    }
}

/// Whether `key` is a primary key that `component` gives.
pub open spec fn is_key_of<C: PrimaryKey>(component: C, key: SqlxColumnView) -> bool {
    exists|column: SqlxColumn| #[trigger]
        call_ensures(C::primary_key, (&component,), column) && column@ == key
}

/// Whether `keys` holds, for each of `components` at its place, a primary key
/// that the component gives.
pub open spec fn are_keys_of<C: PrimaryKey>(components: Seq<C>, keys: Seq<SqlxColumnView>)
    -> bool {
    &&& keys.len() == components.len()
    &&& forall|i: int| 0 <= i < components.len() ==> is_key_of(components[i], #[trigger] keys[i])
}

/// The first position of a key is the one that no equal key precedes.
proof fn lemma_index_of_first(keys: Seq<SqlxColumnView>, key: SqlxColumnView, entity: int)
    requires
        0 <= entity < keys.len(),
        keys[entity] == key,
        forall|j: int| 0 <= j < entity ==> keys[j] != key,
    ensures
        keys.index_of_first(key) == Some(entity),
{
    keys.index_of_first_ensures(key);
}

impl SqlxEntities {
    /// No entities.
    pub fn new() -> (entities: SqlxEntities)
        ensures
            entities@ == Seq::<SqlxColumnView>::empty(),
    {
        SqlxEntities { keys: Vec::new() }
    }

    /// The entities with these primary keys, in this order.
    pub fn from_keys(keys: Vec<SqlxColumn>) -> (entities: SqlxEntities)
        ensures
            entities@ == keys@.map_values(|key: SqlxColumn| key@),
    {
        SqlxEntities { keys }
    }

    pub fn len(&self) -> (len: usize)
        ensures
            len == self@.len(),
    {
        self.keys.len()
    }

    pub fn is_empty(&self) -> (empty: bool)
        ensures
            empty == (self@.len() == 0),
    {
        self.keys.len() == 0
    }

    /// The primary key of the entity at a position.
    pub fn key(&self, entity: usize) -> (key: Option<&SqlxColumn>)
        ensures
            match key {
                Some(key) => entity < self@.len() && key@ == self@[entity as int],
                None => entity >= self@.len(),
            },
    {
        if entity < self.keys.len() {
            Some(&self.keys[entity])
        } else {
            None
        }
    }

    /// The position of the first entity with this primary key.
    pub fn find(&self, key: &SqlxColumn) -> (found: Option<usize>)
        ensures
            match found {
                Some(entity) => self@.index_of_first(key@) == Some(entity as int),
                None => self@.index_of_first(key@) is None,
            },
    {
        let mut entity: usize = 0;
        while entity < self.keys.len()
            invariant
                entity <= self.keys.len(),
                forall|j: int| 0 <= j < entity ==> self@[j] != key@,
            decreases self.keys.len() - entity,
        {
            if self.keys[entity] == *key {
                proof {
                    lemma_index_of_first(self@, key@, entity as int);
                }
                return Some(entity);
            }
            entity += 1;
        }
        proof {
            self@.index_of_first_ensures(key@);
        }
        None
    }

    /// Merges one record of command `id`, whose primary key is `key`.
    ///
    /// Where an entity has that key, the first such entity gets the record and
    /// an `Update` is emitted. Where none has, an entity is created and a
    /// `Spawn` is emitted.
    pub fn sync_component<C>(
        &mut self,
        id: SqlxEventId,
        key: SqlxColumn,
        component: C,
        effects: &mut SqlxEffects<C>,
    )
        ensures
            pass_at(*final(self), *final(effects)) == pass_at(
                *old(self),
                *old(effects),
            ).sync_component(id, key@, component),
    {
        let ghost before = pass_at(*self, *effects);
        match self.find(&key) {
            Some(entity) => {
                effects.status.push(SqlxEventStatus::Update(id, key));
                effects.commands.push(SqlxEntityCommand::Insert(entity, component));
            },
            None => {
                effects.status.push(SqlxEventStatus::Spawn(id, key.clone()));
                effects.commands.push(SqlxEntityCommand::Spawn(component));
                self.keys.push(key);
            },
        }
        proof {
            let after = before.sync_component(id, key@, component);
            assert(status_views(effects.status@) =~= after.status);
            assert(self@ =~= after.entities);
        }
    }

    /// Merges the records of command `id`, first to last, each under the
    /// primary key that it gives: `primary_key` is asked once of each record.
    pub fn sync<C: PrimaryKey>(
        &mut self,
        id: SqlxEventId,
        components: Vec<C>,
        effects: &mut SqlxEffects<C>,
    )
        ensures
            exists|keys: Seq<SqlxColumnView>|
                are_keys_of(components@, keys) && pass_at(*final(self), *final(effects))
                    == #[trigger] pass_at(*old(self), *old(effects)).sync(id, keys, components@),
    {
        let ghost before = pass_at(*self, *effects);
        let ghost mut keys: Seq<SqlxColumnView> = Seq::empty();
        for component in iter: components
            invariant
                iter.seq() == components@,
                are_keys_of(components@.take(iter.index() as int), keys),
                pass_at(*self, *effects) == before.sync(
                    id,
                    keys,
                    components@.take(iter.index() as int),
                ),
        {
            let key = component.primary_key();
            proof {
                let n = iter.index() as int;
                assert(components@.take(n + 1).drop_last() == components@.take(n));
                assert(keys.push(key@).drop_last() == keys);
                keys = keys.push(key@);
            }
            self.sync_component(id, key, component, effects);
        }
        proof {
            assert(components@.take(components@.len() as int) == components@);
        }
    }
}

/// How many entities the commands create.
pub open spec fn spawned<C>(commands: Seq<SqlxEntityCommand<C>>) -> nat
    decreases commands.len(),
{
    if commands.len() == 0 {
        0
    } else if commands.last() is Spawn {
        spawned(commands.drop_last()) + 1
    } else {
        spawned(commands.drop_last())
    }
}

/// Whether each of the commands can be carried out at its turn, the first of
/// them on `len` entities.
pub open spec fn all_fit<C>(commands: Seq<SqlxEntityCommand<C>>, len: nat) -> bool {
    forall|i: int|
        0 <= i < commands.len() ==> (#[trigger] commands[i]).fits(
            len + spawned(commands.take(i)),
        )
}

/// The records after the commands were carried out on `components`, first to
/// last.
pub open spec fn applied_all<C>(commands: Seq<SqlxEntityCommand<C>>, components: Seq<C>) -> Seq<C>
    decreases commands.len(),
{
    if commands.len() == 0 {
        components
    } else {
        commands.last().applied(applied_all(commands.drop_last(), components))
    }
}

/// Commands that fit leave one record for each entity that was there and one
/// for each that they create.
pub proof fn lemma_applied_all_len<C>(commands: Seq<SqlxEntityCommand<C>>, components: Seq<C>)
    requires
        all_fit(commands, components.len()),
    ensures
        applied_all(commands, components).len() == components.len() + spawned(commands),
    decreases commands.len(),
{
    if commands.len() > 0 {
        let before = commands.drop_last();
        assert forall|i: int| 0 <= i < before.len() implies (#[trigger] before[i]).fits(
            components.len() + spawned(before.take(i)),
        ) by {
            assert(before.take(i) == commands.take(i));
        }
        lemma_applied_all_len(before, components);
    }
}

impl<C> SqlxPass<C> {
    /// What merging one record emits, and what it does to the entities,
    /// depends on the entities alone, not on what was emitted before.
    pub proof fn lemma_sync_component_frame(
        self,
        id: SqlxEventId,
        key: SqlxColumnView,
        component: C,
    )
        ensures
            self.sync_component(id, key, component) == self.followed_by(
                Self::begin(self.entities).sync_component(id, key, component),
            ),
    {
        let alone = Self::begin(self.entities).sync_component(id, key, component);
        let after = self.sync_component(id, key, component);
        assert(after.status =~= self.status + alone.status);
        assert(after.commands =~= self.commands + alone.commands);
    }

    /// What merging records emits, and what it does to the entities, depends
    /// on the entities alone, not on what was emitted before.
    pub proof fn lemma_sync_frame(
        self,
        id: SqlxEventId,
        keys: Seq<SqlxColumnView>,
        components: Seq<C>,
    )
        ensures
            self.sync(id, keys, components) == self.followed_by(
                Self::begin(self.entities).sync(id, keys, components),
            ),
        decreases components.len(),
    {
        let fresh = Self::begin(self.entities);
        if components.len() > 0 {
            let before = self.sync(id, keys.drop_last(), components.drop_last());
            let alone = fresh.sync(id, keys.drop_last(), components.drop_last());
            self.lemma_sync_frame(id, keys.drop_last(), components.drop_last());
            before.lemma_sync_component_frame(id, keys.last(), components.last());
            alone.lemma_sync_component_frame(id, keys.last(), components.last());
            let last = Self::begin(alone.entities).sync_component(
                id,
                keys.last(),
                components.last(),
            );
            assert((self.status + alone.status) + last.status
                =~= self.status + (alone.status + last.status));
            assert((self.commands + alone.commands) + last.commands
                =~= self.commands + (alone.commands + last.commands));
        }
    }

    /// Merging the records of command `id` emits one status and one command
    /// for each record, in the order of the records. The status is a `Spawn`
    /// or an `Update` that bears `id` and the key of the record.
    pub proof fn lemma_sync_status(
        self,
        id: SqlxEventId,
        keys: Seq<SqlxColumnView>,
        components: Seq<C>,
    )
        ensures
            self.sync(id, keys, components).status.len() == self.status.len() + components.len(),
            self.sync(id, keys, components).commands.len() == self.commands.len()
                + components.len(),
            self.status.is_prefix_of(self.sync(id, keys, components).status),
            self.commands.is_prefix_of(self.sync(id, keys, components).commands),
            forall|i: int|
                0 <= i < components.len() ==> {
                    let status = #[trigger] self.sync(id, keys, components).status[self.status.len()
                        + i];
                    &&& status is Spawn || status is Update
                    &&& status.id() == id
                    &&& keys.len() == components.len() ==> {
                        ||| status == SqlxEventStatusView::<C>::Spawn(id, keys[i])
                        ||| status == SqlxEventStatusView::<C>::Update(id, keys[i])
                    }
                },
        decreases components.len(),
    {
        if components.len() > 0 {
            self.lemma_sync_status(id, keys.drop_last(), components.drop_last());
        }
    }

    /// Merging records leaves one entity for each primary key.
    ///
    /// If no two entities share a key before, no two do after; the entities
    /// that were there keep their positions; and the keys that have an entity
    /// after are those that had one before and those of the records.
    pub proof fn lemma_sync_one_entity_per_key(
        self,
        id: SqlxEventId,
        keys: Seq<SqlxColumnView>,
        components: Seq<C>,
    )
        requires
            self.entities.no_duplicates(),
            keys.len() == components.len(),
        ensures
            self.sync(id, keys, components).entities.no_duplicates(),
            self.entities.is_prefix_of(self.sync(id, keys, components).entities),
            self.sync(id, keys, components).entities.to_set() == self.entities.to_set().union(
                keys.to_set(),
            ),
        decreases components.len(),
    {
        if components.len() > 0 {
            let before = self.sync(id, keys.drop_last(), components.drop_last());
            self.lemma_sync_one_entity_per_key(id, keys.drop_last(), components.drop_last());
            let key = keys.last();
            before.entities.index_of_first_ensures(key);
            assert(keys == keys.drop_last().push(key));
            keys.drop_last().lemma_push_to_set_commute(key);
            if before.entities.index_of_first(key) is None {
                before.entities.lemma_push_to_set_commute(key);
            }
        }
    }

    /// Merging records keeps the commands fit for a host that had one record
    /// for each entity before the first of them.
    pub(crate) proof fn lemma_sync_keeps_commands_fit(
        self,
        id: SqlxEventId,
        keys: Seq<SqlxColumnView>,
        components: Seq<C>,
        len: nat,
    )
        requires
            all_fit(self.commands, len),
            self.entities.len() == len + spawned(self.commands),
        ensures
            all_fit(self.sync(id, keys, components).commands, len),
            self.sync(id, keys, components).entities.len() == len + spawned(
                self.sync(id, keys, components).commands,
            ),
        decreases components.len(),
    {
        if components.len() > 0 {
            let before = self.sync(id, keys.drop_last(), components.drop_last());
            let after = self.sync(id, keys, components);
            self.lemma_sync_keeps_commands_fit(id, keys.drop_last(), components.drop_last(), len);
            before.entities.index_of_first_ensures(keys.last());
            assert(after.commands.drop_last() == before.commands);
            assert forall|i: int| 0 <= i < after.commands.len() implies (
            #[trigger] after.commands[i]).fits(len + spawned(after.commands.take(i))) by {
                if i < before.commands.len() {
                    assert(after.commands.take(i) == before.commands.take(i));
                }
            }
        }
    }

    /// The commands that merging records emits can be carried out in their
    /// order by a host that holds one record for each entity: a record is
    /// only replaced at a position that holds one by then, and after the last
    /// command there is again one record for each entity.
    pub proof fn lemma_sync_commands_fit(
        entities: Seq<SqlxColumnView>,
        id: SqlxEventId,
        keys: Seq<SqlxColumnView>,
        components: Seq<C>,
        records: Seq<C>,
    )
        requires
            records.len() == entities.len(),
        ensures
            all_fit(Self::begin(entities).sync(id, keys, components).commands, records.len()),
            applied_all(Self::begin(entities).sync(id, keys, components).commands, records).len()
                == Self::begin(entities).sync(id, keys, components).entities.len(),
    {
        let after = Self::begin(entities).sync(id, keys, components);
        Self::begin(entities).lemma_sync_keeps_commands_fit(id, keys, components, records.len());
        lemma_applied_all_len(after.commands, records);
    }
}

} // verus!
