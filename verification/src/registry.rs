//! The registry of validated tables, keyed by record type.

use vstd::prelude::*;

use crate::schema::{
    count, derive_dbmodel, first_violation, foreign_keys_of, indices, key_of, key_views,
    lemma_positions_ascend, lemma_repeated_role_rejected, lemma_single_roles_accepted,
    lemma_timestamp_must_be_insertable, positions, specs_of, ColumnClass, ColumnDescriptor,
    ColumnSpec, ConfigError, ForeignKeySpec, Model, ModelSpec, Role, TableDescriptor,
};

verus! {

/// The position of the first of `models` bound to `record_type`.
pub open spec fn find_type(models: Seq<ModelSpec>, record_type: Seq<char>) -> Option<int>
    decreases models.len(),
{
    if models.len() == 0 {
        None
    } else {
        match find_type(models.drop_last(), record_type) {
            Some(at) => Some(at),
            None => if models.last().record_type == record_type {
                Some(models.len() - 1)
            } else {
                None
            },
        }
    }
}

/// The model among `models` that a foreign key to `target` refers to: the one
/// bound to that record type, provided it has a primary key.
pub open spec fn target_of(models: Seq<ModelSpec>, target: Seq<char>) -> Option<ModelSpec> {
    match find_type(models, target) {
        Some(at) => if models[at].role(Role::PrimaryKey) is Some {
            Some(models[at])
        } else {
            None
        },
        None => None,
    }
}

/// The first of the foreign keys `keys` that refers to no model of `models`.
pub open spec fn first_dangling(models: Seq<ModelSpec>, keys: Seq<ForeignKeySpec>) -> Option<int>
    decreases keys.len(),
{
    if keys.len() == 0 {
        None
    } else {
        match first_dangling(models, keys.drop_last()) {
            Some(k) => Some(k),
            None => if target_of(models, keys.last().target_type) is None {
                Some(keys.len() - 1)
            } else {
                None
            },
        }
    }
}

/// Why the table `own` cannot join `models`, if it cannot: its columns break a
/// rule, its record type is taken, or one of its foreign keys refers to no
/// table with a primary key, neither among `models` nor to `own` itself.
pub open spec fn refusal(models: Seq<ModelSpec>, own: ModelSpec) -> Option<ConfigError> {
    if first_violation(own.columns) is Some {
        first_violation(own.columns)
    } else if find_type(models, own.record_type) is Some {
        Some(ConfigError::DuplicateType)
    } else {
        match first_dangling(models.push(own), own.foreign_keys()) {
            Some(k) => Some(
                ConfigError::ForeignKeyTarget {
                    column: own.class(ColumnClass::Reference)[k] as usize,
                },
            ),
            None => None,
        }
    }
}

/// Whether every foreign key of every model refers to a model with a primary
/// key.
pub open spec fn closed_under_keys(models: Seq<ModelSpec>) -> bool {
    forall|m: int, k: int|
        0 <= m < models.len() && 0 <= k < models[m].foreign_keys().len() ==> target_of(
            models,
            #[trigger] models[m].foreign_keys()[k].target_type,
        ) is Some
}

/// Whether no two models are bound to one record type.
pub open spec fn distinct_types(models: Seq<ModelSpec>) -> bool {
    forall|m: int, n: int|
        0 <= m < n < models.len() ==> #[trigger] models[m].record_type
            != #[trigger] models[n].record_type
}

/// A match among the first `k` models is the match of the whole list.
pub proof fn lemma_find_persists(models: Seq<ModelSpec>, record_type: Seq<char>, k: int)
    requires
        0 <= k <= models.len(),
        find_type(models.take(k), record_type) is Some,
    ensures
        find_type(models, record_type) == find_type(models.take(k), record_type),
    decreases models.len(),
{
    if k == models.len() {
        assert(models.take(k) =~= models);
    } else {
        assert(models.drop_last().take(k) =~= models.take(k));
        lemma_find_persists(models.drop_last(), record_type, k);
    }
}

/// What `find_type` finds is bound to the type sought, and nothing before it
/// is.
pub proof fn lemma_find_type(models: Seq<ModelSpec>, record_type: Seq<char>)
    ensures
        match find_type(models, record_type) {
            Some(at) => 0 <= at < models.len() && models[at].record_type == record_type
                && forall|m: int| 0 <= m < at ==> models[m].record_type != record_type,
            None => forall|m: int| 0 <= m < models.len() ==> models[m].record_type != record_type,
        },
    decreases models.len(),
{
    if models.len() > 0 {
        lemma_find_type(models.drop_last(), record_type);
        assert forall|m: int| 0 <= m < models.len() - 1 implies models.drop_last()[m]
            == models[m] by {}
    }
}

/// The foreign keys of a table are those of its reference columns, in order.
pub proof fn lemma_keys_follow_references(cols: Seq<ColumnSpec>)
    ensures
        foreign_keys_of(cols).len() == positions(cols, ColumnClass::Reference).len(),
        forall|k: int|
            0 <= k < foreign_keys_of(cols).len() ==> #[trigger] foreign_keys_of(cols)[k] == key_of(
                cols[positions(cols, ColumnClass::Reference)[k]],
            ),
    decreases cols.len(),
{
    if cols.len() > 0 {
        lemma_keys_follow_references(cols.drop_last());
        lemma_positions_ascend(cols.drop_last(), ColumnClass::Reference);
    }
}

/// The contents of a list of models, in order.
pub open spec fn model_views(models: Seq<Model>) -> Seq<ModelSpec> {
    models.map_values(|m: Model| m@)
}

/// The validated tables of one database context, each under its record type.
pub struct Registry {
    models: Vec<Model>,
}

impl View for Registry {
    type V = Seq<ModelSpec>;

    closed spec fn view(&self) -> Seq<ModelSpec> {
        model_views(self.models@)
    }
}

impl Registry {
    /// The registry's invariant: every model is well formed, no record type
    /// is bound twice, and every foreign key refers to a registered table
    /// with a primary key.
    pub closed spec fn wf(&self) -> bool {
        &&& forall|m: int| 0 <= m < self.models.len() ==> (#[trigger] self.models[m]).wf()
        &&& distinct_types(self@)
        &&& closed_under_keys(self@)
    }

    /// In a registry, no record type is bound twice, every foreign key refers
    /// to a registered table with a primary key, and no table breaks a rule.
    pub proof fn lemma_keys_resolve(&self)
        requires
            self.wf(),
        ensures
            distinct_types(self@),
            closed_under_keys(self@),
            forall|m: int|
                0 <= m < self@.len() ==> first_violation((#[trigger] self@[m]).columns) is None,
    {
        assert forall|m: int| 0 <= m < self@.len() implies first_violation(
            (#[trigger] self@[m]).columns,
        ) is None by {
            self.models[m].lemma_valid();
        }
    }

    /// A registry with no table.
    pub fn new() -> (r: Registry)
        ensures
            r.wf(),
            r@ == Seq::<ModelSpec>::empty(),
    {
        let r = Registry { models: Vec::new() };
        proof {
            assert(r@ =~= Seq::<ModelSpec>::empty());
        }
        r
    }

    /// The number of registered tables.
    pub fn len(&self) -> (r: usize)
        ensures
            r == self@.len(),
    {
        self.models.len()
    }

    /// The model bound to `record_type`, if one is registered.
    pub fn model(&self, record_type: &str) -> (r: Option<&Model>)
        requires
            self.wf(),
        ensures
            match r {
                Some(model) => model.wf() && find_type(self@, record_type@) is Some
                    && model@ == self@[find_type(self@, record_type@)->0],
                None => find_type(self@, record_type@) is None,
            },
    {
        let ghost all = self@;
        let wanted = String::from_str(record_type);
        let mut k: usize = 0;
        while k < self.models.len()
            invariant
                k <= self.models.len(),
                all == self@,
                all == model_views(self.models@),
                wanted@ == record_type@,
                self.wf(),
                find_type(all.take(k as int), record_type@) is None,
            decreases self.models.len() - k,
        {
            proof {
                assert(all.take(k + 1).drop_last() =~= all.take(k as int));
                assert(all.take(k + 1).last() == self.models[k as int]@);
            }
            if *self.models[k].record_type() == wanted {
                proof {
                    lemma_find_persists(all, record_type@, k + 1);
                }
                return Some(&self.models[k]);
            }
            k = k + 1;
        }
        proof {
            assert(all.take(self.models.len() as int) =~= all);
        }
        None
    }

    /// Validates a table's declaration and enters it.
    ///
    /// The table is refused, and the registry left as it was, when its
    /// columns break a rule, when its record type is registered already, or
    /// when one of its foreign keys refers neither to a registered table with
    /// a primary key nor to the table itself with one. Otherwise the table is
    /// entered after those that were there.
    pub fn register(
        &mut self,
        record_type: String,
        table: TableDescriptor,
        columns: Vec<ColumnDescriptor>,
    ) -> (r: Result<(), ConfigError>)
        requires
            old(self).wf(),
        ensures
            final(self).wf(),
            ({
                let own = ModelSpec {
                    record_type: record_type@,
                    table: table@,
                    columns: specs_of(columns@),
                };
                match r {
                    Ok(()) => refusal(old(self)@, own) is None && final(self)@ == old(self)@.push(
                        own,
                    ),
                    Err(e) => refusal(old(self)@, own) == Some(e) && final(self)@ == old(self)@,
                }
            }),
    {
        let ghost before = self@;
        let ghost own = ModelSpec {
            record_type: record_type@,
            table: table@,
            columns: specs_of(columns@),
        };
        if self.model(record_type.as_str()).is_some() {
            // The columns' own rules come first: a table that breaks one is
            // refused for that, whatever its record type.
            return match derive_dbmodel(record_type, table, columns) {
                Ok(_) => Err(ConfigError::DuplicateType),
                Err(e) => Err(e),
            };
        }
        let model = match derive_dbmodel(record_type, table, columns) {
            Ok(model) => model,
            Err(e) => {
                return Err(e);
            },
        };
        let keys = model.foreign_keys();
        let references = model.class(ColumnClass::Reference);
        let ghost joined = before.push(own);
        proof {
            lemma_keys_follow_references(own.columns);
            lemma_positions_ascend(own.columns, ColumnClass::Reference);
            assert(key_views(keys@).len() == keys.len());
            assert(indices(references@).len() == references.len());
        }
        let mut k: usize = 0;
        while k < keys.len()
            invariant
                k <= keys.len(),
                keys.len() == references.len(),
                self.wf(),
                model.wf(),
                model@ == own,
                own == (ModelSpec {
                    record_type: record_type@,
                    table: table@,
                    columns: specs_of(columns@),
                }),
                before == self@,
                before == old(self)@,
                joined == before.push(own),
                first_violation(own.columns) is None,
                find_type(before, own.record_type) is None,
                key_views(keys@) == own.foreign_keys(),
                indices(references@) == own.class(ColumnClass::Reference),
                first_dangling(joined, own.foreign_keys().take(k as int)) is None,
            decreases keys.len() - k,
        {
            let key = &keys[k];
            proof {
                let all = own.foreign_keys();
                assert(all.take(k + 1).drop_last() =~= all.take(k as int));
                assert(all.take(k + 1).last() == key@);
                assert(key_views(keys@)[k as int] == key@);
                assert(indices(references@)[k as int] == references[k as int]);
                assert(joined.drop_last() =~= before);
                lemma_find_type(before, key@.target_type);
            }
            let found = if key.target_type == *model.record_type() {
                model.role(Role::PrimaryKey).is_some()
            } else {
                match self.model(key.target_type.as_str()) {
                    Some(target) => target.role(Role::PrimaryKey).is_some(),
                    None => false,
                }
            };
            proof {
                assert(found == (target_of(joined, key@.target_type) is Some));
            }
            if !found {
                proof {
                    assert(first_dangling(joined, own.foreign_keys().take(k + 1)) == Some(
                        k as int,
                    ));
                    lemma_dangling_persists(joined, own.foreign_keys(), k + 1);
                }
                return Err(ConfigError::ForeignKeyTarget { column: references[k] });
            }
            k = k + 1;
        }
        proof {
            assert(own.foreign_keys().take(keys.len() as int) =~= own.foreign_keys());
            lemma_push_keeps_closed(before, own);
            assert(model_views(self.models@.push(model)) =~= before.push(own));
        }
        self.models.push(model);
        Ok(())
    }
}

/// A dangling key among the first `k` is the first dangling key of the list.
pub proof fn lemma_dangling_persists(models: Seq<ModelSpec>, keys: Seq<ForeignKeySpec>, k: int)
    requires
        0 <= k <= keys.len(),
        first_dangling(models, keys.take(k)) is Some,
    ensures
        first_dangling(models, keys) == first_dangling(models, keys.take(k)),
    decreases keys.len(),
{
    if k == keys.len() {
        assert(keys.take(k) =~= keys);
    } else {
        assert(keys.drop_last().take(k) =~= keys.take(k));
        lemma_dangling_persists(models, keys.drop_last(), k);
    }
}

/// No key before the first dangling one dangles; with none, no key does.
pub proof fn lemma_first_dangling(models: Seq<ModelSpec>, keys: Seq<ForeignKeySpec>)
    ensures
        match first_dangling(models, keys) {
            Some(k) => 0 <= k < keys.len() && target_of(models, keys[k].target_type) is None,
            None => forall|k: int|
                0 <= k < keys.len() ==> target_of(models, (#[trigger] keys[k]).target_type) is Some,
        },
    decreases keys.len(),
{
    if keys.len() > 0 {
        lemma_first_dangling(models, keys.drop_last());
        assert forall|k: int| 0 <= k < keys.len() - 1 implies keys.drop_last()[k] == keys[k] by {}
    }
}

/// Entering a table of a new record type, none of whose keys dangles, keeps
/// record types distinct and every key referring to a table with a primary
/// key.
pub proof fn lemma_push_keeps_closed(models: Seq<ModelSpec>, own: ModelSpec)
    requires
        distinct_types(models),
        closed_under_keys(models),
        find_type(models, own.record_type) is None,
        first_dangling(models.push(own), own.foreign_keys()) is None,
    ensures
        distinct_types(models.push(own)),
        closed_under_keys(models.push(own)),
{
    let joined = models.push(own);
    lemma_find_type(models, own.record_type);
    assert(joined.drop_last() =~= models);
    lemma_first_dangling(joined, own.foreign_keys());
    assert forall|m: int, k: int|
        0 <= m < joined.len() && 0 <= k < joined[m].foreign_keys().len() implies target_of(
        joined,
        #[trigger] joined[m].foreign_keys()[k].target_type,
    ) is Some by {
        if m < models.len() {
            assert(joined[m] == models[m]);
            let target = models[m].foreign_keys()[k].target_type;
            assert(target_of(models, target) is Some);
            lemma_find_type(models, target);
        }
    }
}

/// A table is entered when each of the three roles is played by one column
/// at most, every timestamp column is insertable, its record type is new, and
/// each of its foreign keys refers to a registered table with a primary key or
/// to the table itself with one.
pub proof fn lemma_valid_table_is_entered(models: Seq<ModelSpec>, own: ModelSpec)
    requires
        count(own.columns, Role::ActiveFlag) <= 1,
        count(own.columns, Role::PrimaryKey) <= 1,
        count(own.columns, Role::UniqueName) <= 1,
        forall|at: int|
            0 <= at < own.columns.len() && own.columns[at].auto_timestamp
                ==> own.columns[at].insertable,
        find_type(models, own.record_type) is None,
        forall|k: int|
            0 <= k < own.foreign_keys().len() ==> target_of(
                models.push(own),
                (#[trigger] own.foreign_keys()[k]).target_type,
            ) is Some,
    ensures
        refusal(models, own) is None,
{
    lemma_single_roles_accepted(own.columns);
    lemma_first_dangling(models.push(own), own.foreign_keys());
}

/// A table in which one of the three roles is played by two columns or more
/// is refused, whatever else holds of it.
pub proof fn lemma_repeated_role_is_refused(models: Seq<ModelSpec>, own: ModelSpec, role: Role)
    requires
        count(own.columns, role) >= 2,
    ensures
        refusal(models, own) is Some,
        refusal(models, own) == first_violation(own.columns),
{
    lemma_repeated_role_rejected(own.columns, role);
}

/// A table with a timestamp column that is not insertable is refused,
/// whatever else holds of it.
pub proof fn lemma_bare_timestamp_is_refused(models: Seq<ModelSpec>, own: ModelSpec, at: int)
    requires
        0 <= at < own.columns.len(),
        own.columns[at].auto_timestamp,
        !own.columns[at].insertable,
    ensures
        refusal(models, own) is Some,
        refusal(models, own) == first_violation(own.columns),
{
    lemma_timestamp_must_be_insertable(own.columns, at);
}

} // verus!
