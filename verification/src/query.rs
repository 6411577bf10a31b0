//! The query builder: a selection over one base table, joins against the
//! tables its foreign keys relate it to, and equality filters, rendered to SQL
//! text with named parameters.

use vstd::prelude::*;
use vstd::string::StringExecFns;

use crate::registry::{
    first_dangling, lemma_dangling_persists, lemma_keys_follow_references, target_of, Registry,
};
use crate::schema::{
    indices, key_views, lemma_first_with_counts, ColumnClass, ConfigError, ForeignKey,
    ForeignKeySpec, Model, ModelSpec, Role, TableSpec,
};
use crate::text::{concat, join, join_strings, lowercase, to_lowercase, views};
use crate::value::{binding_views, Binding, BindingSpec, Value};

verus! {

/// The parameter a filter on `column` binds: a colon and the lowercase form
/// of the column's name.
pub open spec fn column_parameter(column: Seq<char>) -> Seq<char> {
    seq![':'] + lowercase(column)
}

/// ` inner join {schema}.{table} as {alias} on {left} = {right}`
pub open spec fn join_clause(target: TableSpec, left: Seq<char>, right: Seq<char>) -> Seq<char> {
    " inner join "@ + target.source() + " on "@ + left + " = "@ + right
}

/// `{alias}.{column} = :{column in lowercase}`
pub open spec fn equality(table: TableSpec, column: Seq<char>) -> Seq<char> {
    table.reference(column) + " = "@ + column_parameter(column)
}

/// The position of the first of `keys` that refers to `target`.
pub open spec fn key_to(keys: Seq<ForeignKeySpec>, target: Seq<char>) -> Option<int>
    decreases keys.len(),
{
    if keys.len() == 0 {
        None
    } else {
        match key_to(keys.drop_last(), target) {
            Some(k) => Some(k),
            None => if keys.last().target_type == target {
                Some(keys.len() - 1)
            } else {
                None
            },
        }
    }
}

/// The name of the primary key column of a model that has one.
pub open spec fn key_column(m: ModelSpec) -> Seq<char> {
    m.columns[m.role(Role::PrimaryKey)->0].name
}

/// The join of `holder`, through its foreign key `key`, with `target`: the
/// clause joins `joined`, which is one of the two.
pub open spec fn key_join(
    holder: ModelSpec,
    key: ForeignKeySpec,
    target: ModelSpec,
    joined: ModelSpec,
) -> Seq<char> {
    join_clause(
        joined.table,
        holder.table.reference(key.source_column),
        target.table.reference(key_column(target)),
    )
}

/// What a query is made of.
pub struct QuerySpec {
    pub base: ModelSpec,
    pub joins: Seq<Seq<char>>,
    pub filters: Seq<Seq<char>>,
    pub parameters: Seq<BindingSpec>,
}

impl QuerySpec {
    /// The query that selects every row of `base`.
    pub open spec fn select(base: ModelSpec) -> QuerySpec {
        QuerySpec {
            base,
            joins: Seq::empty(),
            filters: Seq::empty(),
            parameters: Seq::empty(),
        }
    }

    /// This query with one more join clause.
    pub open spec fn with_join(self, clause: Seq<char>) -> QuerySpec {
        QuerySpec { joins: self.joins.push(clause), ..self }
    }

    /// This query with one more filter.
    pub open spec fn with_filter(self, predicate: Seq<char>) -> QuerySpec {
        QuerySpec { filters: self.filters.push(predicate), ..self }
    }

    /// This query with one more bound parameter.
    pub open spec fn with_parameter(self, name: Seq<char>, value: Value) -> QuerySpec {
        QuerySpec { parameters: self.parameters.push(BindingSpec { name, value }), ..self }
    }

    /// This query restricted to the rows whose `column` of the base table
    /// equals `value`.
    pub open spec fn where_eq(self, column: Seq<char>, value: Value) -> QuerySpec {
        self.with_filter(equality(self.base.table, column)).with_parameter(
            column_parameter(column),
            value,
        )
    }

    /// This query joined with the rows of `other` whose `column` equals
    /// `value`.
    pub open spec fn join_eq(self, other: ModelSpec, column: Seq<char>, value: Value) -> QuerySpec {
        self.with_join(
            join_clause(other.table, other.table.reference(column), column_parameter(column)),
        ).with_parameter(column_parameter(column), value)
    }

    /// The clause that joins `other` along the foreign key that relates it to
    /// the base table: the base table's first key to `other`, if it has one
    /// and `other` has a primary key; else `other`'s first key to the base
    /// table, if it has one and the base table has a primary key.
    pub open spec fn relation(self, other: ModelSpec) -> Option<Seq<char>> {
        let out = key_to(self.base.foreign_keys(), other.record_type);
        let back = key_to(other.foreign_keys(), self.base.record_type);
        if out is Some && other.role(Role::PrimaryKey) is Some {
            Some(key_join(self.base, self.base.foreign_keys()[out->0], other, other))
        } else if back is Some && self.base.role(Role::PrimaryKey) is Some {
            Some(key_join(other, other.foreign_keys()[back->0], self.base, other))
        } else {
            None
        }
    }

    /// This query joined with `other` along the foreign key that relates the
    /// two, if one does.
    pub open spec fn join_pk(self, other: ModelSpec) -> Option<QuerySpec> {
        match self.relation(other) {
            Some(clause) => Some(self.with_join(clause)),
            None => None,
        }
    }

    /// The clauses that join the target of each foreign key of the base
    /// table, in declaration order.
    pub open spec fn key_joins(self, models: Seq<ModelSpec>) -> Seq<Seq<char>> {
        self.base.foreign_keys().map_values(
            |key: ForeignKeySpec|
                {
                    let target = target_of(models, key.target_type)->0;
                    key_join(self.base, key, target, target)
                },
        )
    }

    /// This query joined with the target of every foreign key of the base
    /// table. It fails when the base table has no foreign key, and when one
    /// of its keys refers to no table of `models` with a primary key.
    pub open spec fn join_fk(self, models: Seq<ModelSpec>) -> Result<QuerySpec, ConfigError> {
        let keys = self.base.foreign_keys();
        if keys.len() == 0 {
            Err(ConfigError::NoForeignKey)
        } else {
            match first_dangling(models, keys) {
                Some(k) => Err(
                    ConfigError::ForeignKeyTarget {
                        column: self.base.class(ColumnClass::Reference)[k] as usize,
                    },
                ),
                None => Ok(QuerySpec { joins: self.joins + self.key_joins(models), ..self }),
            }
        }
    }

    /// The filters as SQL text: nothing when there is none, else ` where `
    /// and the filters with ` and ` between them.
    pub open spec fn filter_text(self) -> Seq<char> {
        if self.filters.len() == 0 {
            Seq::empty()
        } else {
            " where "@ + join(self.filters, " and "@)
        }
    }

    /// The query as SQL text: the selection from the base table, the joins in
    /// the order in which they were added, then the filters in the order in
    /// which they were added.
    pub open spec fn rendered(self) -> Seq<char> {
        self.base.table.selection() + concat(self.joins) + self.filter_text()
    }
}

/// A query under construction.
pub struct Query<'a> {
    base: &'a Model,
    joins: Vec<String>,
    filters: Vec<String>,
    parameters: Vec<Binding>,
}

impl<'a> View for Query<'a> {
    type V = QuerySpec;

    closed spec fn view(&self) -> QuerySpec {
        QuerySpec {
            base: self.base@,
            joins: views(self.joins@),
            filters: views(self.filters@),
            parameters: binding_views(self.parameters@),
        }
    }
}

/// The parameter a filter on `column` binds.
fn column_parameter_name(column: &str) -> (r: String)
    ensures
        r@ == column_parameter(column@),
{
    let mut out = String::from_str(":");
    let lowered = to_lowercase(column);
    out.append(lowered.as_str());
    proof {
        reveal_strlit(":");
        assert(out@ =~= column_parameter(column@));
    }
    out
}

/// ` inner join {schema}.{table} as {alias} on {left} = {right}`
fn join_clause_text(target: &Model, left: &str, right: &str) -> (r: String)
    ensures
        r@ == join_clause(target@.table, left@, right@),
{
    let table = target.table();
    let mut out = String::from_str(" inner join ");
    out.append(table.qualified().as_str());
    out.append(" as ");
    out.append(table.alias.as_str());
    out.append(" on ");
    out.append(left);
    out.append(" = ");
    out.append(right);
    proof {
        assert(out@ =~= join_clause(target@.table, left@, right@));
    }
    out
}

/// The clause that joins `joined` through the key `key` of `holder`, whose
/// target is `target`.
fn key_join_text(holder: &Model, key: &ForeignKey, target: &Model, joined: &Model) -> (r: String)
    requires
        target.wf(),
        target@.role(Role::PrimaryKey) is Some,
    ensures
        r@ == key_join(holder@, key@, target@, joined@),
{
    proof {
        lemma_first_with_counts(target@.columns, Role::PrimaryKey);
    }
    let at = match target.role(Role::PrimaryKey) {
        Some(at) => at,
        None => 0,
    };
    let column = &target.columns()[at];
    proof {
        assert(column@ == target@.columns[at as int]);
    }
    let left = holder.table().reference(key.source_column.as_str());
    let right = target.table().reference(column.column_name.as_str());
    join_clause_text(joined, left.as_str(), right.as_str())
}

/// The first of `keys` that refers to `target`.
fn find_key<'k>(keys: &'k Vec<ForeignKey>, target: &String) -> (r: Option<&'k ForeignKey>)
    ensures
        match r {
            Some(key) => key_to(key_views(keys@), target@) is Some && key@ == key_views(
                keys@,
            )[key_to(key_views(keys@), target@)->0],
            None => key_to(key_views(keys@), target@) is None,
        },
{
    let ghost all = key_views(keys@);
    let mut k: usize = 0;
    while k < keys.len()
        invariant
            k <= keys.len(),
            all == key_views(keys@),
            key_to(all.take(k as int), target@) is None,
        decreases keys.len() - k,
    {
        proof {
            assert(all.take(k + 1).drop_last() =~= all.take(k as int));
            assert(all.take(k + 1).last() == keys[k as int]@);
        }
        if keys[k].target_type == *target {
            proof {
                lemma_key_persists(all, target@, k + 1);
            }
            return Some(&keys[k]);
        }
        k = k + 1;
    }
    proof {
        assert(all.take(keys.len() as int) =~= all);
    }
    None
}

/// A match among the first `k` keys is the match of the whole list.
proof fn lemma_key_persists(keys: Seq<ForeignKeySpec>, target: Seq<char>, k: int)
    requires
        0 <= k <= keys.len(),
        key_to(keys.take(k), target) is Some,
    ensures
        key_to(keys, target) == key_to(keys.take(k), target),
    decreases keys.len(),
{
    if k == keys.len() {
        assert(keys.take(k) =~= keys);
    } else {
        assert(keys.drop_last().take(k) =~= keys.take(k));
        lemma_key_persists(keys.drop_last(), target, k);
    }
}

impl<'a> Query<'a> {
    /// The query's invariant: its base table is a well-formed model.
    pub closed spec fn wf(&self) -> bool {
        self.base.wf()
    }

    /// Starts a query that selects every row of `base`.
    pub fn select(base: &'a Model) -> (r: Query<'a>)
        requires
            base.wf(),
        ensures
            r.wf(),
            r@ == QuerySpec::select(base@),
    {
        let r = Query { base, joins: Vec::new(), filters: Vec::new(), parameters: Vec::new() };
        proof {
            assert(r@.joins =~= Seq::<Seq<char>>::empty());
            assert(r@.filters =~= Seq::<Seq<char>>::empty());
            assert(r@.parameters =~= Seq::<BindingSpec>::empty());
        }
        r
    }

    /// Restricts the query to the rows whose `column` of the base table
    /// equals `value`. The filter reads `{alias}.{column} = :{column in
    /// lowercase}`, and `value` is bound to that parameter.
    pub fn where_eq(self, column: &str, value: Value) -> (r: Query<'a>)
        requires
            self.wf(),
        ensures
            r.wf(),
            r@ == self@.where_eq(column@, value),
    {
        let mut r = self;
        let name = column_parameter_name(column);
        let mut predicate = r.base.table().reference(column);
        predicate.append(" = ");
        predicate.append(name.as_str());
        r.filters.push(predicate);
        r.parameters.push(Binding { name, value });
        proof {
            assert(predicate@ =~= equality(self@.base.table, column@));
            assert(r@.filters =~= self@.filters.push(predicate@));
            assert(r@.parameters =~= self@.parameters.push(
                BindingSpec { name: column_parameter(column@), value },
            ));
        }
        r
    }

    /// Joins the rows of `other` whose `column` equals `value`. The clause
    /// reads ` inner join {other} on {alias}.{column} = :{column in
    /// lowercase}`, and `value` is bound to that parameter.
    pub fn join_eq(self, other: &Model, column: &str, value: Value) -> (r: Query<'a>)
        requires
            self.wf(),
        ensures
            r.wf(),
            r@ == self@.join_eq(other@, column@, value),
    {
        let mut r = self;
        let name = column_parameter_name(column);
        let left = other.table().reference(column);
        let clause = join_clause_text(other, left.as_str(), name.as_str());
        r.joins.push(clause);
        r.parameters.push(Binding { name, value });
        proof {
            assert(r@.joins =~= self@.joins.push(clause@));
            assert(r@.parameters =~= self@.parameters.push(
                BindingSpec { name: column_parameter(column@), value },
            ));
        }
        r
    }

    /// Joins `other` along the foreign key that relates it to the base table:
    /// a key of the base table to `other`'s primary key or, failing that, a
    /// key of `other` to the base table's primary key. With neither, the
    /// join is refused.
    pub fn join_pk(self, other: &Model) -> (r: Result<Query<'a>, ConfigError>)
        requires
            self.wf(),
            other.wf(),
        ensures
            match r {
                Ok(q) => q.wf() && self@.join_pk(other@) == Some(q@),
                Err(e) => e == ConfigError::NoForeignKey && self@.join_pk(other@) is None,
            },
    {
        let mut r = self;
        let base = r.base;
        let out = find_key(base.foreign_keys(), other.record_type());
        let back = find_key(other.foreign_keys(), base.record_type());
        let clause = if out.is_some() && other.role(Role::PrimaryKey).is_some() {
            key_join_text(base, out.unwrap(), other, other)
        } else if back.is_some() && base.role(Role::PrimaryKey).is_some() {
            key_join_text(other, back.unwrap(), base, other)
        } else {
            return Err(ConfigError::NoForeignKey);
        };
        r.joins.push(clause);
        proof {
            assert(r@.joins =~= self@.joins.push(clause@));
        }
        Ok(r)
    }

    /// Joins the target of every foreign key of the base table, in
    /// declaration order, each on the key's column and the target's primary
    /// key. The join is refused when the base table has no foreign key, and
    /// when one of its keys refers to no table of `registry` with a primary
    /// key.
    pub fn join_fk(self, registry: &Registry) -> (r: Result<Query<'a>, ConfigError>)
        requires
            self.wf(),
            registry.wf(),
        ensures
            match r {
                Ok(q) => q.wf() && self@.join_fk(registry@) == Ok::<QuerySpec, ConfigError>(q@),
                Err(e) => self@.join_fk(registry@) == Err::<QuerySpec, ConfigError>(e),
            },
    {
        let mut r = self;
        let base = r.base;
        let keys = base.foreign_keys();
        let references = base.class(ColumnClass::Reference);
        if keys.len() == 0 {
            return Err(ConfigError::NoForeignKey);
        }
        let ghost all = base@.foreign_keys();
        let ghost models = registry@;
        proof {
            lemma_keys_follow_references(base@.columns);
            assert(key_views(keys@).len() == keys.len());
            assert(indices(references@).len() == references.len());
        }
        let mut k: usize = 0;
        while k < keys.len()
            invariant
                k <= keys.len(),
                keys.len() == references.len(),
                registry.wf(),
                models == registry@,
                base.wf(),
                r.base == base,
                base@ == self@.base,
                all == base@.foreign_keys(),
                all == key_views(keys@),
                indices(references@) == base@.class(ColumnClass::Reference),
                first_dangling(models, all.take(k as int)) is None,
                r@.filters == self@.filters,
                r@.parameters == self@.parameters,
                r@.joins == self@.joins + self@.key_joins(models).take(k as int),
            decreases keys.len() - k,
        {
            let key = &keys[k];
            proof {
                assert(all.take(k + 1).drop_last() =~= all.take(k as int));
                assert(all.take(k + 1).last() == key@);
                assert(indices(references@)[k as int] == references[k as int]);
            }
            let target = match registry.model(key.target_type.as_str()) {
                Some(target) => target,
                None => {
                    proof {
                        lemma_dangling_persists(models, all, k + 1);
                    }
                    return Err(ConfigError::ForeignKeyTarget { column: references[k] });
                },
            };
            if target.role(Role::PrimaryKey).is_none() {
                proof {
                    lemma_dangling_persists(models, all, k + 1);
                }
                return Err(ConfigError::ForeignKeyTarget { column: references[k] });
            }
            let clause = key_join_text(base, key, target, target);
            let ghost before = r@.joins;
            r.joins.push(clause);
            proof {
                assert(r@.joins =~= before.push(clause@));
                assert(self@.key_joins(models).take(k + 1) =~= self@.key_joins(models).take(
                    k as int,
                ).push(clause@));
            }
            k = k + 1;
        }
        proof {
            assert(all.take(keys.len() as int) =~= all);
            assert(self@.key_joins(models).take(keys.len() as int) =~= self@.key_joins(models));
        }
        Ok(r)
    }

    /// The values bound so far, in the order in which they were bound.
    pub fn parameters(&self) -> (r: &Vec<Binding>)
        ensures
            binding_views(r@) == self@.parameters,
    {
        &self.parameters
    }

    /// Renders the query as SQL text. The query is left as it was.
    pub fn query_to_string(&self) -> (r: String)
        requires
            self.wf(),
        ensures
            r@ == self@.rendered(),
    {
        let mut out = self.base.table().selection();
        let ghost joins = views(self.joins@);
        let mut k: usize = 0;
        while k < self.joins.len()
            invariant
                k <= self.joins.len(),
                joins == views(self.joins@),
                out@ == self@.base.table.selection() + concat(joins.take(k as int)),
            decreases self.joins.len() - k,
        {
            proof {
                assert(joins.take(k + 1).drop_last() =~= joins.take(k as int));
            }
            out.append(self.joins[k].as_str());
            k = k + 1;
        }
        proof {
            assert(joins.take(self.joins.len() as int) =~= joins);
        }
        if self.filters.len() > 0 {
            out.append(" where ");
            out.append(join_strings(&self.filters, " and ").as_str());
        }
        proof {
            assert(out@ =~= self@.rendered());
        }
        out
    }
}

/// Rendering is a function of the query's state: whatever two renderings of
/// one state return, they return the same text.
pub proof fn lemma_rendering_repeats(q: QuerySpec, first: Seq<char>, second: Seq<char>)
    requires
        first == q.rendered(),
        second == q.rendered(),
    ensures
        first == second,
{
}

/// A filter and a join may be added in either order: the query is the same,
/// and its text names the join before the filter.
pub proof fn lemma_joins_render_before_filters(
    q: QuerySpec,
    clause: Seq<char>,
    column: Seq<char>,
    value: Value,
)
    ensures
        q.where_eq(column, value).with_join(clause) == q.with_join(clause).where_eq(column, value),
        q.where_eq(column, value).with_join(clause).rendered() == q.base.table.selection() + concat(
            q.joins,
        ) + clause + " where "@ + join(q.filters.push(equality(q.base.table, column)), " and "@),
{
    let joined = q.with_join(clause);
    assert(joined.joins.drop_last() =~= q.joins);
    let both = q.where_eq(column, value).with_join(clause);
    assert(both.rendered() =~= q.base.table.selection() + concat(q.joins) + clause + " where "@
        + join(q.filters.push(equality(q.base.table, column)), " and "@));
}

/// A filter and a join along a foreign key may be added in either order: the
/// join is refused in both or in neither, and the query is the same.
pub proof fn lemma_join_pk_commutes_with_where_eq(
    q: QuerySpec,
    other: ModelSpec,
    column: Seq<char>,
    value: Value,
)
    ensures
        q.where_eq(column, value).join_pk(other) == match q.join_pk(other) {
            Some(joined) => Some(joined.where_eq(column, value)),
            None => None,
        },
{
}

} // verus!
