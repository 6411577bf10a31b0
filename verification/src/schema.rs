//! Table and column descriptors, the rules a table's columns must obey, and
//! the model derived from a table that obeys them.

use vstd::prelude::*;
use vstd::string::StringExecFns;

use crate::text::{lowercase, to_lowercase, to_uppercase, uppercase};
use crate::value::FieldType;

verus! {

/// How a record type is bound to a table: the qualifier the table is reached
/// under (the name of the database it lives in), its name, and the correlation
/// name every generated statement refers to it by.
pub struct TableDescriptor {
    pub schema: String,
    pub table: String,
    pub alias: String,
}

/// The mathematical content of a [`TableDescriptor`].
pub struct TableSpec {
    pub schema: Seq<char>,
    pub table: Seq<char>,
    pub alias: Seq<char>,
}

impl View for TableDescriptor {
    type V = TableSpec;

    open spec fn view(&self) -> TableSpec {
        TableSpec { schema: self.schema@, table: self.table@, alias: self.alias@ }
    }
}

/// How one field of a record is bound to a column, and the roles the column
/// plays in its table.
pub struct ColumnDescriptor {
    pub column_name: String,
    pub field_binding: String,
    pub field_type: FieldType,
    pub primary_key: bool,
    pub active_flag: bool,
    pub unique_name: bool,
    pub foreign_key: Option<String>,
    pub insertable: bool,
    pub auto_timestamp: bool,
}

/// The mathematical content of a [`ColumnDescriptor`].
pub struct ColumnSpec {
    pub name: Seq<char>,
    pub field: Seq<char>,
    pub field_type: FieldType,
    pub primary_key: bool,
    pub active_flag: bool,
    pub unique_name: bool,
    pub foreign_key: Option<Seq<char>>,
    pub insertable: bool,
    pub auto_timestamp: bool,
}

impl View for ColumnDescriptor {
    type V = ColumnSpec;

    open spec fn view(&self) -> ColumnSpec {
        ColumnSpec {
            name: self.column_name@,
            field: self.field_binding@,
            field_type: self.field_type,
            primary_key: self.primary_key,
            active_flag: self.active_flag,
            unique_name: self.unique_name,
            foreign_key: match self.foreign_key {
                Some(target) => Some(target@),
                None => None,
            },
            insertable: self.insertable,
            auto_timestamp: self.auto_timestamp,
        }
    }
}

/// The roles of which a table may hold one column at most.
#[derive(Clone, Copy, Debug, PartialEq, Eq, Structural)]
pub enum Role {
    ActiveFlag,
    PrimaryKey,
    UniqueName,
}

/// The lists a table's columns are sorted into.
#[derive(Clone, Copy, Debug, PartialEq, Eq, Structural)]
pub enum ColumnClass {
    /// Columns with no key role: neither primary key, active flag, unique
    /// name nor foreign key.
    Normal,
    /// Insertable columns whose value the caller supplies.
    Argument,
    /// Insertable columns whose value is the time of the insert.
    Stamped,
    /// Columns that refer to another table's primary key.
    Reference,
}

/// Why a table was refused. `column` is the position of the offending column
/// in declaration order.
#[derive(Clone, Copy, Debug, PartialEq, Eq, Structural)]
pub enum ConfigError {
    DuplicateActiveFlag { column: usize },
    DuplicatePrimaryKey { column: usize },
    DuplicateUniqueName { column: usize },
    TimestampNotInsertable { column: usize },
    /// The record type is registered already.
    DuplicateType,
    /// The column's foreign key names no registered type with a primary key.
    ForeignKeyTarget { column: usize },
    /// A join was asked of two tables that no foreign key relates.
    NoForeignKey,
}

impl ColumnSpec {
    pub open spec fn has(self, role: Role) -> bool {
        match role {
            Role::ActiveFlag => self.active_flag,
            Role::PrimaryKey => self.primary_key,
            Role::UniqueName => self.unique_name,
        }
    }

    pub open spec fn in_class(self, class: ColumnClass) -> bool {
        match class {
            ColumnClass::Normal => !self.primary_key && !self.active_flag && !self.unique_name
                && self.foreign_key is None,
            ColumnClass::Argument => self.insertable && !self.auto_timestamp,
            ColumnClass::Stamped => self.insertable && self.auto_timestamp,
            ColumnClass::Reference => self.foreign_key is Some,
        }
    }

    /// The name of the statement parameter this column's value is bound to:
    /// a colon and the lowercase form of the field's name.
    pub open spec fn parameter(self) -> Seq<char> {
        seq![':'] + lowercase(self.field)
    }

    /// The name of the statement parameter a foreign key's value is bound to:
    /// a colon and the lowercase form of the column's name.
    pub open spec fn key_parameter(self) -> Seq<char> {
        seq![':'] + lowercase(self.name)
    }
}

/// The contents of a list of descriptors, in order.
pub open spec fn specs_of(columns: Seq<ColumnDescriptor>) -> Seq<ColumnSpec> {
    columns.map_values(|c: ColumnDescriptor| c@)
}

/// How many of `cols` play `role`.
pub open spec fn count(cols: Seq<ColumnSpec>, role: Role) -> nat
    decreases cols.len(),
{
    if cols.len() == 0 {
        0
    } else {
        count(cols.drop_last(), role) + if cols.last().has(role) {
            1nat
        } else {
            0nat
        }
    }
}

/// The position of the first of `cols` that plays `role`.
pub open spec fn first_with(cols: Seq<ColumnSpec>, role: Role) -> Option<int>
    decreases cols.len(),
{
    if cols.len() == 0 {
        None
    } else {
        match first_with(cols.drop_last(), role) {
            Some(at) => Some(at),
            None => if cols.last().has(role) {
                Some(cols.len() - 1)
            } else {
                None
            },
        }
    }
}

/// The rule that column `at` breaks, given the columns declared before it. A
/// column that breaks several is charged with the first of: a second active
/// flag, a second primary key, a second unique name, a timestamp that is not
/// insertable.
pub open spec fn violation_at(cols: Seq<ColumnSpec>, at: int) -> Option<ConfigError> {
    let before = cols.take(at);
    let column = at as usize;
    if cols[at].active_flag && first_with(before, Role::ActiveFlag) is Some {
        Some(ConfigError::DuplicateActiveFlag { column })
    } else if cols[at].primary_key && first_with(before, Role::PrimaryKey) is Some {
        Some(ConfigError::DuplicatePrimaryKey { column })
    } else if cols[at].unique_name && first_with(before, Role::UniqueName) is Some {
        Some(ConfigError::DuplicateUniqueName { column })
    } else if cols[at].auto_timestamp && !cols[at].insertable {
        Some(ConfigError::TimestampNotInsertable { column })
    } else {
        None
    }
}

/// The rule broken by the earliest column of `cols` that breaks one.
pub open spec fn first_violation(cols: Seq<ColumnSpec>) -> Option<ConfigError>
    decreases cols.len(),
{
    if cols.len() == 0 {
        None
    } else {
        match first_violation(cols.drop_last()) {
            Some(e) => Some(e),
            None => violation_at(cols, cols.len() - 1),
        }
    }
}

/// The positions of the columns of `cols` that belong to `class`, ascending.
pub open spec fn positions(cols: Seq<ColumnSpec>, class: ColumnClass) -> Seq<int>
    decreases cols.len(),
{
    if cols.len() == 0 {
        Seq::empty()
    } else if cols.last().in_class(class) {
        positions(cols.drop_last(), class).push(cols.len() - 1)
    } else {
        positions(cols.drop_last(), class)
    }
}

/// A list of positions as mathematical integers.
pub open spec fn indices(list: Seq<usize>) -> Seq<int> {
    list.map_values(|i: usize| i as int)
}

/// An optional position as a mathematical integer.
pub open spec fn index(at: Option<usize>) -> Option<int> {
    match at {
        Some(i) => Some(i as int),
        None => None,
    }
}

/// A foreign key of a table: the column that holds it, the record type it
/// refers to, the field it is read from, and the parameter it is bound to.
pub struct ForeignKey {
    pub source_column: String,
    pub target_type: String,
    pub field_binding: String,
    pub bind_parameter_name: String,
}

/// The mathematical content of a [`ForeignKey`].
pub struct ForeignKeySpec {
    pub source_column: Seq<char>,
    pub target_type: Seq<char>,
    pub field_binding: Seq<char>,
    pub bind_parameter_name: Seq<char>,
}

impl View for ForeignKey {
    type V = ForeignKeySpec;

    open spec fn view(&self) -> ForeignKeySpec {
        ForeignKeySpec {
            source_column: self.source_column@,
            target_type: self.target_type@,
            field_binding: self.field_binding@,
            bind_parameter_name: self.bind_parameter_name@,
        }
    }
}

/// The foreign key that a column with a target declares.
pub open spec fn key_of(c: ColumnSpec) -> ForeignKeySpec {
    ForeignKeySpec {
        source_column: c.name,
        target_type: c.foreign_key->0,
        field_binding: c.field,
        bind_parameter_name: c.key_parameter(),
    }
}

/// The foreign keys that `cols` declare, in order.
pub open spec fn foreign_keys_of(cols: Seq<ColumnSpec>) -> Seq<ForeignKeySpec>
    decreases cols.len(),
{
    if cols.len() == 0 {
        Seq::empty()
    } else if cols.last().foreign_key is Some {
        foreign_keys_of(cols.drop_last()).push(key_of(cols.last()))
    } else {
        foreign_keys_of(cols.drop_last())
    }
}

/// The contents of a list of foreign keys, in order.
pub open spec fn key_views(list: Seq<ForeignKey>) -> Seq<ForeignKeySpec> {
    list.map_values(|k: ForeignKey| k@)
}

/// A named constant of a table: the uppercase form of a column's name, which
/// stands for the column's name as the store knows it.
pub struct Constant {
    pub name: String,
    pub column: String,
}

/// The mathematical content of a [`Constant`].
pub struct ConstantSpec {
    pub name: Seq<char>,
    pub column: Seq<char>,
}

impl View for Constant {
    type V = ConstantSpec;

    open spec fn view(&self) -> ConstantSpec {
        ConstantSpec { name: self.name@, column: self.column@ }
    }
}

/// The constant that stands for a column.
pub open spec fn constant_of(c: ColumnSpec) -> ConstantSpec {
    ConstantSpec { name: uppercase(c.name), column: c.name }
}

/// The contents of a list of constants, in order.
pub open spec fn constant_views(list: Seq<Constant>) -> Seq<ConstantSpec> {
    list.map_values(|c: Constant| c@)
}

/// What a validated table is made of. Everything else a [`Model`] offers is a
/// function of these three.
pub struct ModelSpec {
    pub record_type: Seq<char>,
    pub table: TableSpec,
    pub columns: Seq<ColumnSpec>,
}

impl ModelSpec {
    /// The position of the column that plays `role`, if one does.
    pub open spec fn role(self, role: Role) -> Option<int> {
        first_with(self.columns, role)
    }

    /// The positions of the columns of `class`, in declaration order.
    pub open spec fn class(self, class: ColumnClass) -> Seq<int> {
        positions(self.columns, class)
    }

    /// The foreign keys the table declares, in declaration order.
    pub open spec fn foreign_keys(self) -> Seq<ForeignKeySpec> {
        foreign_keys_of(self.columns)
    }

    /// One constant for each column, in declaration order.
    pub open spec fn constants(self) -> Seq<ConstantSpec> {
        self.columns.map_values(|c: ColumnSpec| constant_of(c))
    }
}

impl ColumnDescriptor {
    /// Decides [`ColumnSpec::in_class`].
    pub fn is_in(&self, class: ColumnClass) -> (r: bool)
        ensures
            r == self@.in_class(class),
    {
        match class {
            ColumnClass::Normal => !self.primary_key && !self.active_flag && !self.unique_name
                && self.foreign_key.is_none(),
            ColumnClass::Argument => self.insertable && !self.auto_timestamp,
            ColumnClass::Stamped => self.insertable && self.auto_timestamp,
            ColumnClass::Reference => self.foreign_key.is_some(),
        }
    }
}

/// The positions of the columns of `class`, in declaration order.
fn collect_positions(columns: &Vec<ColumnDescriptor>, class: ColumnClass) -> (r: Vec<usize>)
    ensures
        indices(r@) == positions(specs_of(columns@), class),
{
    let ghost cols = specs_of(columns@);
    let mut found: Vec<usize> = Vec::new();
    let mut i: usize = 0;
    while i < columns.len()
        invariant
            i <= columns.len(),
            cols == specs_of(columns@),
            indices(found@) == positions(cols.take(i as int), class),
        decreases columns.len() - i,
    {
        proof {
            assert(cols.take(i + 1).drop_last() =~= cols.take(i as int));
        }
        if columns[i].is_in(class) {
            let ghost before = found@;
            found.push(i);
            proof {
                assert(indices(found@) =~= indices(before).push(i as int));
            }
        }
        i = i + 1;
    }
    proof {
        assert(cols.take(columns.len() as int) =~= cols);
    }
    found
}

/// The foreign keys that `columns` declare, in order.
fn collect_foreign_keys(columns: &Vec<ColumnDescriptor>) -> (r: Vec<ForeignKey>)
    ensures
        key_views(r@) == foreign_keys_of(specs_of(columns@)),
{
    let ghost cols = specs_of(columns@);
    let mut keys: Vec<ForeignKey> = Vec::new();
    let mut i: usize = 0;
    while i < columns.len()
        invariant
            i <= columns.len(),
            cols == specs_of(columns@),
            key_views(keys@) == foreign_keys_of(cols.take(i as int)),
        decreases columns.len() - i,
    {
        proof {
            assert(cols.take(i + 1).drop_last() =~= cols.take(i as int));
        }
        let column = &columns[i];
        match &column.foreign_key {
            Some(target) => {
                let mut parameter = String::from_str(":");
                let lowered = to_lowercase(column.column_name.as_str());
                parameter.append(lowered.as_str());
                let key = ForeignKey {
                    source_column: column.column_name.clone(),
                    target_type: target.clone(),
                    field_binding: column.field_binding.clone(),
                    bind_parameter_name: parameter,
                };
                proof {
                    reveal_strlit(":");
                    assert(":"@ =~= seq![':']);
                    assert(key@ == key_of(cols[i as int]));
                }
                let ghost before = keys@;
                keys.push(key);
                proof {
                    assert(key_views(keys@) =~= key_views(before).push(key_of(cols[i as int])));
                }
            },
            None => {},
        }
        i = i + 1;
    }
    proof {
        assert(cols.take(columns.len() as int) =~= cols);
    }
    keys
}

/// One constant for each of `columns`, in order.
fn collect_constants(columns: &Vec<ColumnDescriptor>) -> (r: Vec<Constant>)
    ensures
        constant_views(r@) == specs_of(columns@).map_values(|c: ColumnSpec| constant_of(c)),
{
    let ghost cols = specs_of(columns@);
    let mut constants: Vec<Constant> = Vec::new();
    let mut i: usize = 0;
    while i < columns.len()
        invariant
            i <= columns.len(),
            cols == specs_of(columns@),
            constant_views(constants@) == cols.take(i as int).map_values(
                |c: ColumnSpec| constant_of(c),
            ),
        decreases columns.len() - i,
    {
        let column = &columns[i];
        let constant = Constant {
            name: to_uppercase(column.column_name.as_str()),
            column: column.column_name.clone(),
        };
        let ghost before = constants@;
        constants.push(constant);
        proof {
            assert(constant@ == constant_of(cols[i as int]));
            assert(constant_views(constants@) =~= constant_views(before).push(
                constant_of(cols[i as int]),
            ));
            assert(cols.take(i + 1).map_values(|c: ColumnSpec| constant_of(c)) =~= cols.take(
                i as int,
            ).map_values(|c: ColumnSpec| constant_of(c)).push(constant_of(cols[i as int])));
        }
        i = i + 1;
    }
    proof {
        assert(cols.take(columns.len() as int) =~= cols);
    }
    constants
}

/// A violation among the first `k` columns is the violation of the whole list.
proof fn lemma_violation_persists(cols: Seq<ColumnSpec>, k: int)
    requires
        0 <= k <= cols.len(),
        first_violation(cols.take(k)) is Some,
    ensures
        first_violation(cols) == first_violation(cols.take(k)),
    decreases cols.len(),
{
    if k == cols.len() {
        assert(cols.take(k) =~= cols);
    } else {
        assert(cols.drop_last().take(k) =~= cols.take(k));
        lemma_violation_persists(cols.drop_last(), k);
    }
}

/// Every position of a class lies within the list, and the positions ascend.
pub proof fn lemma_positions_ascend(cols: Seq<ColumnSpec>, class: ColumnClass)
    ensures
        positions(cols, class).len() <= cols.len(),
        forall|k: int|
            0 <= k < positions(cols, class).len() ==> 0 <= #[trigger] positions(cols, class)[k]
                < cols.len() && cols[positions(cols, class)[k]].in_class(class),
        forall|j: int, k: int|
            0 <= j < k < positions(cols, class).len() ==> #[trigger] positions(cols, class)[j]
                < #[trigger] positions(cols, class)[k],
    decreases cols.len(),
{
    if cols.len() > 0 {
        lemma_positions_ascend(cols.drop_last(), class);
    }
}

/// A table whose columns obey the rules, with what follows from its
/// declaration worked out once: the columns that play a role, the columns of
/// each class, the foreign keys and the constants.
pub struct Model {
    record_type: String,
    table: TableDescriptor,
    columns: Vec<ColumnDescriptor>,
    active_flag: Option<usize>,
    primary_key: Option<usize>,
    unique_name: Option<usize>,
    normal: Vec<usize>,
    arguments: Vec<usize>,
    stamped: Vec<usize>,
    references: Vec<usize>,
    foreign_keys: Vec<ForeignKey>,
    constants: Vec<Constant>,
}

impl View for Model {
    type V = ModelSpec;

    closed spec fn view(&self) -> ModelSpec {
        ModelSpec {
            record_type: self.record_type@,
            table: self.table@,
            columns: specs_of(self.columns@),
        }
    }
}

impl Model {
    /// The model's invariant: its columns break no rule, and each stored list
    /// is the one its columns determine.
    pub closed spec fn wf(&self) -> bool {
        let cols = specs_of(self.columns@);
        &&& first_violation(cols) is None
        &&& index(self.active_flag) == first_with(cols, Role::ActiveFlag)
        &&& index(self.primary_key) == first_with(cols, Role::PrimaryKey)
        &&& index(self.unique_name) == first_with(cols, Role::UniqueName)
        &&& indices(self.normal@) == positions(cols, ColumnClass::Normal)
        &&& indices(self.arguments@) == positions(cols, ColumnClass::Argument)
        &&& indices(self.stamped@) == positions(cols, ColumnClass::Stamped)
        &&& indices(self.references@) == positions(cols, ColumnClass::Reference)
        &&& key_views(self.foreign_keys@) == foreign_keys_of(cols)
        &&& constant_views(self.constants@) == cols.map_values(|c: ColumnSpec| constant_of(c))
    }

    /// A well-formed model breaks no rule.
    pub proof fn lemma_valid(&self)
        requires
            self.wf(),
        ensures
            first_violation(self@.columns) is None,
    {
    }

    /// The record type the table is bound to.
    pub fn record_type(&self) -> (r: &String)
        ensures
            r@ == self@.record_type,
    {
        &self.record_type
    }

    /// The table's qualifier, name and alias.
    pub fn table(&self) -> (r: &TableDescriptor)
        ensures
            r@ == self@.table,
    {
        &self.table
    }

    /// The columns, in declaration order.
    pub fn columns(&self) -> (r: &Vec<ColumnDescriptor>)
        ensures
            specs_of(r@) == self@.columns,
    {
        &self.columns
    }

    /// The position of the column that plays `role`, if one does.
    pub fn role(&self, role: Role) -> (r: Option<usize>)
        requires
            self.wf(),
        ensures
            index(r) == self@.role(role),
    {
        match role {
            Role::ActiveFlag => self.active_flag,
            Role::PrimaryKey => self.primary_key,
            Role::UniqueName => self.unique_name,
        }
    }

    /// The positions of the columns of `class`, in declaration order.
    pub fn class(&self, class: ColumnClass) -> (r: &Vec<usize>)
        requires
            self.wf(),
        ensures
            indices(r@) == self@.class(class),
    {
        match class {
            ColumnClass::Normal => &self.normal,
            ColumnClass::Argument => &self.arguments,
            ColumnClass::Stamped => &self.stamped,
            ColumnClass::Reference => &self.references,
        }
    }

    /// The foreign keys the table declares, in declaration order.
    pub fn foreign_keys(&self) -> (r: &Vec<ForeignKey>)
        requires
            self.wf(),
        ensures
            key_views(r@) == self@.foreign_keys(),
    {
        &self.foreign_keys
    }

    /// One constant for each column, in declaration order.
    pub fn constants(&self) -> (r: &Vec<Constant>)
        requires
            self.wf(),
        ensures
            constant_views(r@) == self@.constants(),
    {
        &self.constants
    }
}

/// Validates a table's declaration and derives its model.
///
/// The columns are walked once, in declaration order. The walk stops at the
/// first column that breaks a rule, and that rule is the error. A table that
/// breaks none yields the model of exactly this declaration.
pub fn derive_dbmodel(
    record_type: String,
    table: TableDescriptor,
    columns: Vec<ColumnDescriptor>,
) -> (r: Result<Model, ConfigError>)
    ensures
        match r {
            Ok(model) => {
                &&& first_violation(specs_of(columns@)) is None
                &&& model.wf()
                &&& model@ == (ModelSpec {
                    record_type: record_type@,
                    table: table@,
                    columns: specs_of(columns@),
                })
            },
            Err(e) => first_violation(specs_of(columns@)) == Some(e),
        },
{
    let ghost cols = specs_of(columns@);
    let mut active_flag: Option<usize> = None;
    let mut primary_key: Option<usize> = None;
    let mut unique_name: Option<usize> = None;
    let mut i: usize = 0;
    while i < columns.len()
        invariant
            i <= columns.len(),
            cols == specs_of(columns@),
            first_violation(cols.take(i as int)) is None,
            index(active_flag) == first_with(cols.take(i as int), Role::ActiveFlag),
            index(primary_key) == first_with(cols.take(i as int), Role::PrimaryKey),
            index(unique_name) == first_with(cols.take(i as int), Role::UniqueName),
        decreases columns.len() - i,
    {
        let column = &columns[i];
        proof {
            assert(cols.take(i + 1).drop_last() =~= cols.take(i as int));
            assert(cols.take(i + 1).take(i as int) =~= cols.take(i as int));
            assert(cols.take(i + 1)[i as int] == column@);
            assert(first_violation(cols.take(i + 1)) == violation_at(cols.take(i + 1), i as int));
            if violation_at(cols.take(i + 1), i as int) is Some {
                lemma_violation_persists(cols, i + 1);
            }
        }
        if column.active_flag {
            if active_flag.is_some() {
                return Err(ConfigError::DuplicateActiveFlag { column: i });
            }
            active_flag = Some(i);
        }
        if column.primary_key {
            if primary_key.is_some() {
                return Err(ConfigError::DuplicatePrimaryKey { column: i });
            }
            primary_key = Some(i);
        }
        if column.unique_name {
            if unique_name.is_some() {
                return Err(ConfigError::DuplicateUniqueName { column: i });
            }
            unique_name = Some(i);
        }
        if column.auto_timestamp && !column.insertable {
            return Err(ConfigError::TimestampNotInsertable { column: i });
        }
        i = i + 1;
    }
    proof {
        assert(cols.take(columns.len() as int) =~= cols);
    }
    let normal = collect_positions(&columns, ColumnClass::Normal);
    let arguments = collect_positions(&columns, ColumnClass::Argument);
    let stamped = collect_positions(&columns, ColumnClass::Stamped);
    let references = collect_positions(&columns, ColumnClass::Reference);
    let foreign_keys = collect_foreign_keys(&columns);
    let constants = collect_constants(&columns);
    Ok(
        Model {
            record_type,
            table,
            columns,
            active_flag,
            primary_key,
            unique_name,
            normal,
            arguments,
            stamped,
            references,
            foreign_keys,
            constants,
        },
    )
}

/// A role is played by some column exactly when it is played at least once.
pub proof fn lemma_first_with_counts(cols: Seq<ColumnSpec>, role: Role)
    ensures
        first_with(cols, role) is Some <==> count(cols, role) >= 1,
        first_with(cols, role) matches Some(at) ==> 0 <= at < cols.len() && cols[at].has(role),
    decreases cols.len(),
{
    if cols.len() > 0 {
        lemma_first_with_counts(cols.drop_last(), role);
    }
}

/// A table in which each of the three roles is played by one column at most,
/// and every timestamp column is insertable, breaks no rule.
pub proof fn lemma_single_roles_accepted(cols: Seq<ColumnSpec>)
    requires
        count(cols, Role::ActiveFlag) <= 1,
        count(cols, Role::PrimaryKey) <= 1,
        count(cols, Role::UniqueName) <= 1,
        forall|at: int| 0 <= at < cols.len() && cols[at].auto_timestamp ==> cols[at].insertable,
    ensures
        first_violation(cols) is None,
    decreases cols.len(),
{
    if cols.len() > 0 {
        let rest = cols.drop_last();
        assert(cols.take(cols.len() - 1) =~= rest);
        lemma_first_with_counts(rest, Role::ActiveFlag);
        lemma_first_with_counts(rest, Role::PrimaryKey);
        lemma_first_with_counts(rest, Role::UniqueName);
        assert forall|at: int| 0 <= at < rest.len() && rest[at].auto_timestamp implies rest[at]
            .insertable by {
            assert(rest[at] == cols[at]);
        }
        lemma_single_roles_accepted(rest);
    }
}

/// A table in which one of the three roles is played by two columns or more
/// breaks a rule.
pub proof fn lemma_repeated_role_rejected(cols: Seq<ColumnSpec>, role: Role)
    requires
        count(cols, role) >= 2,
    ensures
        first_violation(cols) is Some,
    decreases cols.len(),
{
    let rest = cols.drop_last();
    if count(rest, role) >= 2 {
        lemma_repeated_role_rejected(rest, role);
    } else {
        assert(cols.take(cols.len() - 1) =~= rest);
        lemma_first_with_counts(rest, role);
        assert(violation_at(cols, cols.len() - 1) is Some);
    }
}

/// A table with a timestamp column that is not insertable breaks a rule.
pub proof fn lemma_timestamp_must_be_insertable(cols: Seq<ColumnSpec>, at: int)
    requires
        0 <= at < cols.len(),
        cols[at].auto_timestamp,
        !cols[at].insertable,
    ensures
        first_violation(cols) is Some,
    decreases cols.len(),
{
    if at == cols.len() - 1 {
        assert(violation_at(cols, cols.len() - 1) is Some);
    } else {
        lemma_timestamp_must_be_insertable(cols.drop_last(), at);
    }
}

impl TableDescriptor {
    /// The table `table`, reached under `schema` and referred to as `alias`.
    pub fn new(schema: &str, table: &str, alias: &str) -> (r: TableDescriptor)
        ensures
            r@ == (TableSpec { schema: schema@, table: table@, alias: alias@ }),
    {
        TableDescriptor {
            schema: String::from_str(schema),
            table: String::from_str(table),
            alias: String::from_str(alias),
        }
    }
}

impl ColumnDescriptor {
    /// The column `column_name`, bound to the field `field_binding` of type
    /// `field_type`, with no role.
    pub fn new(column_name: &str, field_binding: &str, field_type: FieldType) -> (r:
        ColumnDescriptor)
        ensures
            r@ == (ColumnSpec {
                name: column_name@,
                field: field_binding@,
                field_type,
                primary_key: false,
                active_flag: false,
                unique_name: false,
                foreign_key: None,
                insertable: false,
                auto_timestamp: false,
            }),
    {
        ColumnDescriptor {
            column_name: String::from_str(column_name),
            field_binding: String::from_str(field_binding),
            field_type,
            primary_key: false,
            active_flag: false,
            unique_name: false,
            foreign_key: None,
            insertable: false,
            auto_timestamp: false,
        }
    }

    /// This column as the primary key.
    pub fn with_primary_key(self) -> (r: ColumnDescriptor)
        ensures
            r@ == (ColumnSpec { primary_key: true, ..self@ }),
    {
        let mut r = self;
        r.primary_key = true;
        r
    }

    /// This column as the active flag.
    pub fn with_active_flag(self) -> (r: ColumnDescriptor)
        ensures
            r@ == (ColumnSpec { active_flag: true, ..self@ }),
    {
        let mut r = self;
        r.active_flag = true;
        r
    }

    /// This column as the unique name.
    pub fn with_unique_name(self) -> (r: ColumnDescriptor)
        ensures
            r@ == (ColumnSpec { unique_name: true, ..self@ }),
    {
        let mut r = self;
        r.unique_name = true;
        r
    }

    /// This column as a foreign key to the primary key of `target`.
    pub fn with_foreign_key(self, target: &str) -> (r: ColumnDescriptor)
        ensures
            r@ == (ColumnSpec { foreign_key: Some(target@), ..self@ }),
    {
        let mut r = self;
        r.foreign_key = Some(String::from_str(target));
        r
    }

    /// This column as one that an insert names.
    pub fn with_insertable(self) -> (r: ColumnDescriptor)
        ensures
            r@ == (ColumnSpec { insertable: true, ..self@ }),
    {
        let mut r = self;
        r.insertable = true;
        r
    }

    /// This column as one stamped with the time of the insert.
    pub fn with_auto_timestamp(self) -> (r: ColumnDescriptor)
        ensures
            r@ == (ColumnSpec { auto_timestamp: true, ..self@ }),
    {
        let mut r = self;
        r.auto_timestamp = true;
        r
    }
}

/// The column that the first of `constants` named `name` stands for.
pub open spec fn constant_named(constants: Seq<ConstantSpec>, name: Seq<char>) -> Option<Seq<char>>
    decreases constants.len(),
{
    if constants.len() == 0 {
        None
    } else if constants[0].name == name {
        Some(constants[0].column)
    } else {
        constant_named(constants.drop_first(), name)
    }
}

impl Model {
    /// The name of the column that the constant `name` stands for: the first
    /// column whose name in uppercase is `name`.
    pub fn constant(&self, name: &str) -> (r: Option<&String>)
        requires
            self.wf(),
        ensures
            match r {
                Some(column) => constant_named(self@.constants(), name@) == Some(column@),
                None => constant_named(self@.constants(), name@) is None,
            },
    {
        let wanted = String::from_str(name);
        let ghost all = self@.constants();
        proof {
            assert(all.skip(0) =~= all);
        }
        let mut k: usize = 0;
        while k < self.constants.len()
            invariant
                k <= self.constants.len(),
                self.wf(),
                wanted@ == name@,
                all == self@.constants(),
                all == constant_views(self.constants@),
                constant_named(all, name@) == constant_named(all.skip(k as int), name@),
            decreases self.constants.len() - k,
        {
            proof {
                assert(all.skip(k as int)[0] == self.constants[k as int]@);
                assert(all.skip(k as int).drop_first() =~= all.skip(k + 1));
            }
            if self.constants[k].name == wanted {
                return Some(&self.constants[k].column);
            }
            k = k + 1;
        }
        None
    }
}

} // verus!
