//! Components represent data backed by rows in the database.
//!
//! A component names its primary key as a [`SqlxColumn`]; two components stand
//! for the same entity exactly when their primary keys are equal.

use vstd::prelude::*;
use vstd::std_specs::cmp::PartialEqSpecImpl;

verus! {

/// A column as a mathematical value: its name and its value, each as text.
pub struct SqlxColumnView {
    pub name: Seq<char>,
    pub value: Seq<char>,
}

/// One named value of a row.
///
/// Two columns are equal when they have the same name and the same value.
#[derive(Debug, Eq)]
pub struct SqlxColumn {
    name: String,
    value: String,
}

impl View for SqlxColumn {
    type V = SqlxColumnView;

    closed spec fn view(&self) -> SqlxColumnView {
        SqlxColumnView { name: self.name@, value: self.value@ }
    }
}

impl PartialEq for SqlxColumn {
    fn eq(&self, other: &SqlxColumn) -> (equal: bool) {
        self.name == other.name && self.value == other.value
    }
}

impl PartialEqSpecImpl for SqlxColumn {
    open spec fn obeys_eq_spec() -> bool {
        true
    }

    open spec fn eq_spec(&self, other: &SqlxColumn) -> bool {
        self@ == other@
    }
}

impl Clone for SqlxColumn {
    fn clone(&self) -> (column: SqlxColumn)
        ensures
            column@ == self@,
    {
        SqlxColumn { name: self.name.clone(), value: self.value.clone() }
    }
}

impl SqlxColumn {
    pub fn new(name: &str, value: &str) -> (column: SqlxColumn)
        ensures
            column@.name == name@,
            column@.value == value@,
    {
        SqlxColumn { name: name.to_owned(), value: value.to_owned() }
    }

    pub fn name(&self) -> (name: &str)
        ensures
            name@ == self@.name,
    {
        self.name.as_str()
    }

    pub fn value(&self) -> (value: &str)
        ensures
            value@ == self@.value,
    {
        self.value.as_str()
    }

}

/// The projection of a component onto its primary key.
///
/// Equality of primary keys is the only thing that decides whether two
/// components are the same entity.
pub trait PrimaryKey {
    fn primary_key(&self) -> SqlxColumn;
}

impl PrimaryKey for () {
    fn primary_key(&self) -> (column: SqlxColumn)
        ensures
            column@.name == "id"@,
            column@.value == ""@,
    {
        SqlxColumn::new("id", "")
    }
}

/// A record that can be written back to the database.
pub trait ToRow {
    fn to_row(&self) -> Vec<SqlxColumn>;
}

/// Rows in the database represent a specific component.
pub trait SqlxComponent: PrimaryKey + ToRow {
}

impl<C: PrimaryKey + ToRow> SqlxComponent for C {
}

/// The texts of `parts` in order, with `", "` between each two neighbours.
pub open spec fn comma_separated(parts: Seq<Seq<char>>) -> Seq<char>
    decreases parts.len(),
{
    if parts.len() == 0 {
        Seq::empty()
    } else if parts.len() == 1 {
        parts[0]
    } else {
        comma_separated(parts.drop_last()) + seq![',', ' '] + parts.last()
    }
}

/// The column lists of an SQL statement.
pub trait SqlxColumns {
    fn sql_names(&self) -> String;

    fn sql_values(&self) -> String;
}

impl SqlxColumns for Vec<SqlxColumn> {
    fn sql_names(&self) -> (sql: String)
        ensures
            sql@ == comma_separated(self@.map_values(|c: SqlxColumn| c@.name)),
    {
        let ghost names = self@.map_values(|c: SqlxColumn| c@.name);
        let mut sql = String::new();
        let mut i: usize = 0;
        while i < self.len()
            invariant
                i <= self.len(),
                names == self@.map_values(|c: SqlxColumn| c@.name),
                sql@ == comma_separated(names.take(i as int)),
            decreases self.len() - i,
        {
            proof {
                reveal_strlit(", ");
                assert(names.take(i + 1).drop_last() == names.take(i as int));
            }
            if i > 0 {
                sql.append(", ");
            }
            sql.append(self[i].name());
            i += 1;
        }
        proof {
            assert(names.take(i as int) == names);
        }
        sql
    }

    fn sql_values(&self) -> (sql: String)
        ensures
            sql@ == comma_separated(self@.map_values(|c: SqlxColumn| c@.value)),
    {
        let ghost values = self@.map_values(|c: SqlxColumn| c@.value);
        let mut sql = String::new();
        let mut i: usize = 0;
        while i < self.len()
            invariant
                i <= self.len(),
                values == self@.map_values(|c: SqlxColumn| c@.value),
                sql@ == comma_separated(values.take(i as int)),
            decreases self.len() - i,
        {
            proof {
                reveal_strlit(", ");
                assert(values.take(i + 1).drop_last() == values.take(i as int));
            }
            if i > 0 {
                sql.append(", ");
            }
            sql.append(self[i].value());
            i += 1;
        }
        proof {
            assert(values.take(i as int) == values);
        }
        sql
    }
}

} // verus!
