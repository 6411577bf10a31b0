//! The SQL text of the operations a model offers: the insert and the fetches
//! by one column.

use vstd::prelude::*;
use vstd::string::StringExecFns;

use crate::schema::{
    index, indices, lemma_first_with_counts, lemma_positions_ascend, specs_of, ColumnClass,
    ColumnDescriptor, ColumnSpec, Model, ModelSpec, Role, TableDescriptor, TableSpec,
};
use crate::text::{join, join_strings, to_lowercase, views};

verus! {

/// SQL text and the names of the parameters it expects, in the order in which
/// they occur in the text.
pub struct Statement {
    pub sql: String,
    pub parameters: Vec<String>,
}

/// The mathematical content of a [`Statement`].
pub struct StatementSpec {
    pub sql: Seq<char>,
    pub parameters: Seq<Seq<char>>,
}

impl View for Statement {
    type V = StatementSpec;

    open spec fn view(&self) -> StatementSpec {
        StatementSpec { sql: self.sql@, parameters: views(self.parameters@) }
    }
}

impl TableSpec {
    /// `{schema}.{table}`
    pub open spec fn qualified(self) -> Seq<char> {
        self.schema + "."@ + self.table
    }

    /// `{schema}.{table} as {alias}`
    pub open spec fn source(self) -> Seq<char> {
        self.qualified() + " as "@ + self.alias
    }

    /// `select {alias}.* from {schema}.{table} as {alias}`
    pub open spec fn selection(self) -> Seq<char> {
        "select "@ + self.alias + ".* from "@ + self.source()
    }

    /// `{alias}.{column}`
    pub open spec fn reference(self, column: Seq<char>) -> Seq<char> {
        self.alias + "."@ + column
    }
}

impl ModelSpec {
    /// The positions of the columns an insert names: those the caller
    /// supplies, then those stamped with the time of the insert.
    pub open spec fn insert_columns(self) -> Seq<int> {
        self.class(ColumnClass::Argument) + self.class(ColumnClass::Stamped)
    }

    /// The names of the columns an insert names.
    pub open spec fn insert_names(self) -> Seq<Seq<char>> {
        self.insert_columns().map_values(|at: int| self.columns[at].name)
    }

    /// The parameters an insert binds, one for each column it names.
    pub open spec fn insert_parameters(self) -> Seq<Seq<char>> {
        self.insert_columns().map_values(|at: int| self.columns[at].parameter())
    }

    /// `insert into {schema}.{table} ( {columns} ) values ( {parameters} );`
    /// with columns and parameters separated by a comma and a space. A table
    /// with no insertable column has no insert.
    pub open spec fn insert_statement(self) -> Option<StatementSpec> {
        if self.insert_columns().len() == 0 {
            None
        } else {
            Some(
                StatementSpec {
                    sql: "insert into "@ + self.table.qualified() + " ( "@ + join(
                        self.insert_names(),
                        ", "@,
                    ) + " ) values ( "@ + join(self.insert_parameters(), ", "@) + " );"@,
                    parameters: self.insert_parameters(),
                },
            )
        }
    }

    /// `select {alias}.* from {schema}.{table} as {alias} where
    /// {alias}.{column} = {parameter}` for the column at `at`.
    pub open spec fn fetch_statement(self, at: int) -> StatementSpec {
        StatementSpec {
            sql: self.table.selection() + " where "@ + self.table.reference(self.columns[at].name)
                + " = "@ + self.columns[at].parameter(),
            parameters: seq![self.columns[at].parameter()],
        }
    }

    /// The fetch by the column that plays `role`, if one does.
    pub open spec fn fetch_by_role(self, role: Role) -> Option<StatementSpec> {
        match self.role(role) {
            Some(at) => Some(self.fetch_statement(at)),
            None => None,
        }
    }

    /// The position of the first normal column named `column`.
    pub open spec fn normal_column(self, column: Seq<char>) -> Option<int> {
        first_named(self.columns, self.class(ColumnClass::Normal), column)
    }

    /// The fetch of all rows by the normal column named `column`.
    pub open spec fn fetch_all_by(self, column: Seq<char>) -> Option<StatementSpec> {
        match self.normal_column(column) {
            Some(at) => Some(self.fetch_statement(at)),
            None => None,
        }
    }
}

/// The first of the positions `among` whose column is named `column`.
pub open spec fn first_named(cols: Seq<ColumnSpec>, among: Seq<int>, column: Seq<char>) -> Option<
    int,
>
    decreases among.len(),
{
    if among.len() == 0 {
        None
    } else if cols[among[0]].name == column {
        Some(among[0])
    } else {
        first_named(cols, among.drop_first(), column)
    }
}

impl TableDescriptor {
    /// `{schema}.{table}`
    pub fn qualified(&self) -> (r: String)
        ensures
            r@ == self@.qualified(),
    {
        let mut out = self.schema.clone();
        out.append(".");
        out.append(self.table.as_str());
        out
    }

    /// `select {alias}.* from {schema}.{table} as {alias}`
    pub fn selection(&self) -> (r: String)
        ensures
            r@ == self@.selection(),
    {
        let mut out = String::from_str("select ");
        out.append(self.alias.as_str());
        out.append(".* from ");
        out.append(self.qualified().as_str());
        out.append(" as ");
        out.append(self.alias.as_str());
        proof {
            assert(out@ =~= self@.selection());
        }
        out
    }

    /// `{alias}.{column}`
    pub fn reference(&self, column: &str) -> (r: String)
        ensures
            r@ == self@.reference(column@),
    {
        let mut out = self.alias.clone();
        out.append(".");
        out.append(column);
        out
    }
}

impl ColumnDescriptor {
    /// The name of the parameter this column's value is bound to.
    pub fn parameter(&self) -> (r: String)
        ensures
            r@ == self@.parameter(),
    {
        let mut out = String::from_str(":");
        let lowered = to_lowercase(self.field_binding.as_str());
        out.append(lowered.as_str());
        proof {
            reveal_strlit(":");
            assert(out@ =~= self@.parameter());
        }
        out
    }
}

impl Model {
    /// The names and parameters of the columns at `at`, appended to `names`
    /// and `parameters`.
    fn name_columns(&self, at: &Vec<usize>, names: &mut Vec<String>, parameters: &mut Vec<String>)
        requires
            forall|k: int| 0 <= k < at.len() ==> at[k] < self@.columns.len(),
        ensures
            views(final(names)@) == views(old(names)@) + indices(at@).map_values(
                |i: int| self@.columns[i].name,
            ),
            views(final(parameters)@) == views(old(parameters)@) + indices(at@).map_values(
                |i: int| self@.columns[i].parameter(),
            ),
    {
        let columns = self.columns();
        let ghost cols = self@.columns;
        let ghost names_before = views(names@);
        let ghost parameters_before = views(parameters@);
        let mut k: usize = 0;
        while k < at.len()
            invariant
                k <= at.len(),
                cols == self@.columns,
                cols == specs_of(columns@),
                forall|j: int| 0 <= j < at.len() ==> at[j] < cols.len(),
                views(names@) == names_before + indices(at@).take(k as int).map_values(
                    |i: int| cols[i].name,
                ),
                views(parameters@) == parameters_before + indices(at@).take(k as int).map_values(
                    |i: int| cols[i].parameter(),
                ),
            decreases at.len() - k,
        {
            let column = &columns[at[k]];
            let ghost names_then = views(names@);
            let ghost parameters_then = views(parameters@);
            names.push(column.column_name.clone());
            parameters.push(column.parameter());
            proof {
                let i = at[k as int] as int;
                assert(column@ == cols[i]);
                assert(indices(at@).take(k + 1) =~= indices(at@).take(k as int).push(i));
                assert(views(names@) =~= names_then.push(cols[i].name));
                assert(views(parameters@) =~= parameters_then.push(cols[i].parameter()));
                assert(indices(at@).take(k + 1).map_values(|i: int| cols[i].name)
                    =~= indices(at@).take(k as int).map_values(|i: int| cols[i].name).push(
                    cols[i].name,
                ));
                assert(indices(at@).take(k + 1).map_values(|i: int| cols[i].parameter())
                    =~= indices(at@).take(k as int).map_values(|i: int| cols[i].parameter()).push(
                    cols[i].parameter(),
                ));
            }
            k = k + 1;
        }
        proof {
            assert(indices(at@).take(at.len() as int) =~= indices(at@));
        }
    }

    /// The insert statement: it names the columns the caller supplies, in
    /// declaration order, then the columns stamped with the time of the
    /// insert, and binds one parameter to each. `None` exactly when the table
    /// has no insertable column.
    pub fn insert_statement(&self) -> (r: Option<Statement>)
        requires
            self.wf(),
        ensures
            match r {
                Some(statement) => self@.insert_statement() == Some(statement@),
                None => self@.insert_statement() is None,
            },
    {
        let arguments = self.class(ColumnClass::Argument);
        let stamped = self.class(ColumnClass::Stamped);
        if arguments.len() == 0 && stamped.len() == 0 {
            return None;
        }
        proof {
            lemma_positions_ascend(self@.columns, ColumnClass::Argument);
            lemma_positions_ascend(self@.columns, ColumnClass::Stamped);
            assert forall|k: int| 0 <= k < arguments.len() implies arguments[k]
                < self@.columns.len() by {
                assert(indices(arguments@)[k] == arguments[k]);
            }
            assert forall|k: int| 0 <= k < stamped.len() implies stamped[k]
                < self@.columns.len() by {
                assert(indices(stamped@)[k] == stamped[k]);
            }
        }
        let mut names: Vec<String> = Vec::new();
        let mut parameters: Vec<String> = Vec::new();
        self.name_columns(arguments, &mut names, &mut parameters);
        self.name_columns(stamped, &mut names, &mut parameters);
        proof {
            assert(views(names@) =~= self@.insert_names());
            assert(views(parameters@) =~= self@.insert_parameters());
        }
        let mut sql = String::from_str("insert into ");
        sql.append(self.table().qualified().as_str());
        sql.append(" ( ");
        sql.append(join_strings(&names, ", ").as_str());
        sql.append(" ) values ( ");
        sql.append(join_strings(&parameters, ", ").as_str());
        sql.append(" );");
        proof {
            assert(sql@ =~= self@.insert_statement()->0.sql);
        }
        Some(Statement { sql, parameters })
    }

    /// The fetch of the rows whose column at `at` equals the bound value.
    fn fetch_statement(&self, at: usize) -> (r: Statement)
        requires
            at < self@.columns.len(),
        ensures
            r@ == self@.fetch_statement(at as int),
    {
        let column = &self.columns()[at];
        let parameter = column.parameter();
        let mut sql = self.table().selection();
        sql.append(" where ");
        sql.append(self.table().reference(column.column_name.as_str()).as_str());
        sql.append(" = ");
        sql.append(parameter.as_str());
        let mut parameters: Vec<String> = Vec::new();
        parameters.push(parameter);
        proof {
            assert(column@ == self@.columns[at as int]);
            assert(sql@ =~= self@.fetch_statement(at as int).sql);
            assert(views(parameters@) =~= seq![self@.columns[at as int].parameter()]);
        }
        Statement { sql, parameters }
    }

    /// The fetch of one row by the column that plays `role`. `None` exactly
    /// when no column of the table plays it.
    pub fn fetch_by_role(&self, role: Role) -> (r: Option<Statement>)
        requires
            self.wf(),
        ensures
            match r {
                Some(statement) => self@.fetch_by_role(role) == Some(statement@),
                None => self@.fetch_by_role(role) is None,
            },
    {
        match self.role(role) {
            Some(at) => {
                proof {
                    lemma_first_with_counts(self@.columns, role);
                }
                Some(self.fetch_statement(at))
            },
            None => None,
        }
    }

    /// The fetch of one row by its primary key.
    pub fn get_by_id(&self) -> (r: Option<Statement>)
        requires
            self.wf(),
        ensures
            match r {
                Some(statement) => self@.fetch_by_role(Role::PrimaryKey) == Some(statement@),
                None => self@.fetch_by_role(Role::PrimaryKey) is None,
            },
    {
        self.fetch_by_role(Role::PrimaryKey)
    }

    /// The fetch of one row by its unique name.
    pub fn get_by_name(&self) -> (r: Option<Statement>)
        requires
            self.wf(),
        ensures
            match r {
                Some(statement) => self@.fetch_by_role(Role::UniqueName) == Some(statement@),
                None => self@.fetch_by_role(Role::UniqueName) is None,
            },
    {
        self.fetch_by_role(Role::UniqueName)
    }

    /// The position of the first normal column named `column`.
    pub fn normal_column(&self, column: &str) -> (r: Option<usize>)
        requires
            self.wf(),
        ensures
            index(r) == self@.normal_column(column@),
            r matches Some(at) ==> at < self@.columns.len(),
    {
        let normal = self.class(ColumnClass::Normal);
        let columns = self.columns();
        let ghost cols = self@.columns;
        let ghost among = indices(normal@);
        proof {
            lemma_positions_ascend(cols, ColumnClass::Normal);
            assert(among.skip(0) =~= among);
        }
        let mut k: usize = 0;
        while k < normal.len()
            invariant
                k <= normal.len(),
                cols == self@.columns,
                cols == specs_of(columns@),
                among == indices(normal@),
                among == self@.class(ColumnClass::Normal),
                forall|j: int| 0 <= j < among.len() ==> 0 <= #[trigger] among[j] < cols.len(),
                first_named(cols, among, column@) == first_named(
                    cols,
                    among.skip(k as int),
                    column@,
                ),
            decreases normal.len() - k,
        {
            let at = normal[k];
            proof {
                assert(among[k as int] == at);
                assert(among.skip(k as int)[0] == at);
                assert(among.skip(k as int).drop_first() =~= among.skip(k + 1));
            }
            let name = String::from_str(column);
            if columns[at].column_name == name {
                return Some(at);
            }
            k = k + 1;
        }
        proof {
            assert(among.skip(normal.len() as int).len() == 0);
        }
        None
    }

    /// The fetch of all rows whose normal column named `column` equals the
    /// bound value. `None` exactly when the table has no normal column of
    /// that name.
    pub fn get_all_by(&self, column: &str) -> (r: Option<Statement>)
        requires
            self.wf(),
        ensures
            match r {
                Some(statement) => self@.fetch_all_by(column@) == Some(statement@),
                None => self@.fetch_all_by(column@) is None,
            },
    {
        match self.normal_column(column) {
            Some(at) => Some(self.fetch_statement(at)),
            None => None,
        }
    }
}

} // verus!
