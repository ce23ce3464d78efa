use vstd::prelude::*;

use crate::error::ViewerError;
use crate::parquet_meta::SchemaField;
use crate::text::{decimal, decimal_string};

verus! {

/// Whether `s` starts with `select`, in any mix of upper and lower case.
pub open spec fn starts_with_select(s: Seq<char>) -> bool {
    &&& s.len() >= 6
    &&& (s[0] == 's' || s[0] == 'S')
    &&& (s[1] == 'e' || s[1] == 'E')
    &&& (s[2] == 'l' || s[2] == 'L')
    &&& (s[3] == 'e' || s[3] == 'E')
    &&& (s[4] == 'c' || s[4] == 'C')
    &&& (s[5] == 't' || s[5] == 'T')
}

/// Whether user input is SQL to run as it is, rather than a question.
pub fn is_sql(input: &str) -> (r: bool)
    ensures
        r == starts_with_select(input@),
{
    if input.unicode_len() < 6 {
        return false;
    }
    let c0 = input.get_char(0);
    let c1 = input.get_char(1);
    let c2 = input.get_char(2);
    let c3 = input.get_char(3);
    let c4 = input.get_char(4);
    let c5 = input.get_char(5);
    (c0 == 's' || c0 == 'S') && (c1 == 'e' || c1 == 'E') && (c2 == 'l' || c2 == 'L') && (c3 == 'e' || c3
        == 'E') && (c4 == 'c' || c4 == 'C') && (c5 == 't' || c5 == 'T')
}

/// The query run when a table is first loaded.
pub open spec fn default_query_spec(table_name: Seq<char>) -> Seq<char> {
    "SELECT * FROM \""@ + table_name + "\" LIMIT 10"@
}

/// `SELECT * FROM "<table_name>" LIMIT 10`.
pub fn default_query(table_name: &str) -> (r: String)
    ensures
        r@ == default_query_spec(table_name@),
{
    String::from_str("SELECT * FROM \"").concat(table_name).concat("\" LIMIT 10")
}

/// `name: type` for one field.
pub open spec fn field_brief(f: SchemaField) -> Seq<char> {
    f.name@ + ": "@ + f.data_type@
}

/// The fields as `name: type`, separated by `, `.
pub open spec fn schema_brief(fields: Seq<SchemaField>) -> Seq<char>
    decreases fields.len(),
{
    if fields.len() == 0 {
        Seq::empty()
    } else if fields.len() == 1 {
        field_brief(fields[0])
    } else {
        schema_brief(fields.drop_last()) + ", "@ + field_brief(fields.last())
    }
}

/// A brief listing of a schema for a SQL generator: `name: type, ...`.
pub fn schema_to_brief_str(fields: &Vec<SchemaField>) -> (r: String)
    ensures
        r@ == schema_brief(fields@),
{
    let mut out = String::new();
    let mut i: usize = 0;
    while i < fields.len()
        invariant
            i <= fields@.len(),
            out@ == schema_brief(fields@.take(i as int)),
        decreases fields@.len() - i,
    {
        let f = &fields[i];
        proof {
            let t = fields@.take(i + 1);
            assert(t.drop_last() =~= fields@.take(i as int));
            assert(t.last() == fields@[i as int]);
            if i == 0 {
                assert(t.len() == 1);
                assert(t[0] == fields@[0]);
            }
        }
        if i == 0 {
            out = out.concat(f.name.as_str()).concat(": ").concat(f.data_type.as_str());
            proof {
                assert(out@ =~= field_brief(fields@[0]));
            }
        } else {
            out = out.concat(", ").concat(f.name.as_str()).concat(": ").concat(f.data_type.as_str());
            proof {
                assert(out@ =~= schema_brief(fields@.take(i as int)) + ", "@ + field_brief(fields@[i as int]));
            }
        }
        i = i + 1;
    }
    assert(fields@.take(fields@.len() as int) =~= fields@);
    out
}

/// The request that asks a SQL generator to answer `question`.
pub open spec fn prompt_spec(question: Seq<char>, table_name: Seq<char>, schema: Seq<char>) -> Seq<char> {
    "Generate a SQL query to answer the following question: "@ + question
        + ". You should generate PostgreSQL SQL dialect, all field names and table names should be double quoted, and the output SQL should be executable, be careful about the available columns. The table name is: "@
        + table_name + ", the schema of the table is: "@ + schema + ".  "@
}

/// What to do with user input.
#[derive(Debug, Clone, PartialEq, Eq)]
pub enum SqlRequest {
    /// Run this SQL as it is.
    Run(String),
    /// Ask a SQL generator with this prompt, then run what it answers.
    Generate(String),
}

/// Decides how user input becomes SQL: input that starts with `select` is
/// run verbatim; anything else is a question, turned into a prompt that
/// names the table and lists its schema.
pub fn user_input_to_sql(input: &str, fields: &Vec<SchemaField>, table_name: &str) -> (r: SqlRequest)
    ensures
        starts_with_select(input@) ==> (r matches SqlRequest::Run(sql) && sql@ == input@),
        !starts_with_select(input@) ==> (r matches SqlRequest::Generate(prompt) && prompt@ == prompt_spec(
            input@,
            table_name@,
            schema_brief(fields@),
        )),
{
    if is_sql(input) {
        return SqlRequest::Run(String::from_str(input));
    }
    let schema = schema_to_brief_str(fields);
    let prompt = String::from_str("Generate a SQL query to answer the following question: ").concat(input).concat(
        ". You should generate PostgreSQL SQL dialect, all field names and table names should be double quoted, and the output SQL should be executable, be careful about the available columns. The table name is: ",
    ).concat(table_name).concat(", the schema of the table is: ").concat(schema.as_str()).concat(".  ");
    SqlRequest::Generate(prompt)
}

/// Turns what a SQL generator answered into the SQL to run; its failure
/// becomes a query error that carries its message.
pub fn sql_from_generator(answer: Result<String, String>) -> (r: Result<String, ViewerError>)
    ensures
        answer matches Ok(sql) ==> (r matches Ok(s) && s@ == sql@),
        answer matches Err(e) ==> (r matches Err(ViewerError::Query { message }) && message@
            == "Failed to generate SQL: "@ + e@),
{
    match answer {
        Ok(sql) => Ok(sql),
        Err(e) => Err(ViewerError::Query { message: String::from_str("Failed to generate SQL: ").concat(e.as_str()) }),
    }
}

/// The name under which the result of execution `id` can be queried.
pub open spec fn view_name_spec(id: nat) -> Seq<char> {
    "view_"@ + decimal(id)
}

/// `view_<id>`.
pub fn view_name(id: u64) -> (r: String)
    ensures
        r@ == view_name_spec(id as nat),
{
    let digits = decimal_string(id);
    String::from_str("view_").concat(digits.as_str())
}

/// One executed query as the session lists it.
#[derive(Debug, Clone, PartialEq, Eq)]
pub struct QueryResult {
    pub id: u64,
    pub sql_query: String,
    pub display: bool,
}

impl QueryResult {
    /// A new, displayed result.
    pub fn new(id: u64, sql_query: String) -> (r: QueryResult)
        ensures
            r.id == id,
            r.sql_query == sql_query,
            r.display,
    {
        QueryResult { id, sql_query, display: true }
    }

    pub fn display(&self) -> (r: bool)
        ensures
            r == self.display,
    {
        self.display
    }

    /// Shows a hidden result, hides a shown one.
    pub fn toggle_display(&mut self)
        ensures
            final(self).display == !old(self).display,
            final(self).id == old(self).id,
            final(self).sql_query == old(self).sql_query,
    {
        self.display = !self.display;
    }

    pub fn id(&self) -> (r: u64)
        ensures
            r == self.id,
    {
        self.id
    }
}

/// The session's table catalog: object-store roots, tables, and executed
/// queries. It only grows.
pub struct SessionCatalog {
    stores: Vec<String>,
    tables: Vec<String>,
    results: Vec<QueryResult>,
}

/// The plain value of a list of strings.
pub open spec fn strings_view(v: Seq<String>) -> Seq<Seq<char>> {
    v.map_values(|s: String| s@)
}

impl SessionCatalog {
    /// Registered object-store roots, in registration order.
    pub closed spec fn stores(&self) -> Seq<Seq<char>> {
        strings_view(self.stores@)
    }

    /// Registered table names, in registration order.
    pub closed spec fn tables(&self) -> Seq<Seq<char>> {
        strings_view(self.tables@)
    }

    /// Executed queries, oldest first.
    pub closed spec fn results(&self) -> Seq<QueryResult> {
        self.results@
    }

    /// An empty catalog.
    pub fn new() -> (r: SessionCatalog)
        ensures
            r.stores() == Seq::<Seq<char>>::empty(),
            r.tables() == Seq::<Seq<char>>::empty(),
            r.results() == Seq::<QueryResult>::empty(),
    {
        let r = SessionCatalog { stores: Vec::new(), tables: Vec::new(), results: Vec::new() };
        assert(r.stores() =~= Seq::<Seq<char>>::empty());
        assert(r.tables() =~= Seq::<Seq<char>>::empty());
        r
    }

    /// Whether the object-store root `url` is registered.
    pub fn has_store(&self, url: &String) -> (r: bool)
        ensures
            r == self.stores().contains(url@),
    {
        contains_string(&self.stores, url)
    }

    /// Whether a table named `name` is registered.
    pub fn has_table(&self, name: &String) -> (r: bool)
        ensures
            r == self.tables().contains(name@),
    {
        contains_string(&self.tables, name)
    }

    /// Registers the object-store root `url` unless it is registered already;
    /// returns whether the backend must be registered with the engine now.
    pub fn register_store(&mut self, url: &String) -> (r: bool)
        ensures
            r == !old(self).stores().contains(url@),
            r ==> final(self).stores() == old(self).stores().push(url@),
            !r ==> final(self).stores() == old(self).stores(),
            final(self).tables() == old(self).tables(),
            final(self).results() == old(self).results(),
    {
        if contains_string(&self.stores, url) {
            false
        } else {
            self.stores.push(url.clone());
            assert(strings_view(self.stores@) =~= strings_view(old(self).stores@).push(url@));
            true
        }
    }

    /// Registers the table `name` unless it is registered already.
    pub fn register_table(&mut self, name: &String)
        ensures
            old(self).tables().contains(name@) ==> final(self).tables() == old(self).tables(),
            !old(self).tables().contains(name@) ==> final(self).tables() == old(self).tables().push(name@),
            final(self).stores() == old(self).stores(),
            final(self).results() == old(self).results(),
    {
        if !contains_string(&self.tables, name) {
            self.tables.push(name.clone());
            assert(strings_view(self.tables@) =~= strings_view(old(self).tables@).push(name@));
        }
    }

    /// Records an executed query. Its id is the number of queries recorded
    /// before it; a result with rows is registered as the table `view_<id>`,
    /// whose name is returned.
    pub fn record_result(&mut self, sql_query: String, has_rows: bool) -> (r: (u64, Option<String>))
        requires
            old(self).results().len() < u64::MAX,
        ensures
            r.0 == old(self).results().len(),
            final(self).results() == old(self).results().push(QueryResult { id: r.0, sql_query, display: true }),
            final(self).stores() == old(self).stores(),
            has_rows ==> (r.1 matches Some(name) && name@ == view_name_spec(r.0 as nat) && (
            old(self).tables().contains(name@) ==> final(self).tables() == old(self).tables()) && (
            !old(self).tables().contains(name@) ==> final(self).tables() == old(self).tables().push(name@))),
            !has_rows ==> r.1 is None && final(self).tables() == old(self).tables(),
    {
        let id = self.results.len() as u64;
        self.results.push(QueryResult::new(id, sql_query));
        if has_rows {
            let name = view_name(id);
            self.register_table(&name);
            (id, Some(name))
        } else {
            (id, None)
        }
    }

    /// Shows or hides the result with the given id; returns whether there
    /// is one.
    pub fn toggle_display(&mut self, id: u64) -> (r: bool)
        ensures
            r == exists|i: int| 0 <= i < old(self).results().len() && old(self).results()[i].id == id,
            final(self).results().len() == old(self).results().len(),
            forall|i: int|
                0 <= i < old(self).results().len() ==> #[trigger] final(self).results()[i] == if old(
                    self,
                ).results()[i].id == id {
                    QueryResult { display: !old(self).results()[i].display, ..old(self).results()[i] }
                } else {
                    old(self).results()[i]
                },
            final(self).stores() == old(self).stores(),
            final(self).tables() == old(self).tables(),
    {
        let mut found = false;
        let mut i: usize = 0;
        while i < self.results.len()
            invariant
                self.stores == old(self).stores,
                self.tables == old(self).tables,
                i <= self.results@.len() == old(self).results@.len(),
                found == exists|j: int| 0 <= j < i && old(self).results@[j].id == id,
                forall|j: int|
                    0 <= j < i ==> #[trigger] self.results@[j] == if old(self).results@[j].id == id {
                        QueryResult { display: !old(self).results@[j].display, ..old(self).results@[j] }
                    } else {
                        old(self).results@[j]
                    },
                forall|j: int| i <= j < self.results@.len() ==> #[trigger] self.results@[j] == old(self).results@[j],
            decreases self.results@.len() - i,
        {
            proof {
                assert(self.results@[i as int] == old(self).results@[i as int]);
                if exists|j: int| 0 <= j < i + 1 && old(self).results@[j].id == id {
                    let j = choose|j: int| 0 <= j < i + 1 && old(self).results@[j].id == id;
                    assert(j < i || old(self).results@[i as int].id == id);
                }
                if old(self).results@[i as int].id == id {
                    assert(exists|j: int| 0 <= j < i + 1 && old(self).results@[j].id == id);
                }
            }
            if self.results[i].id == id {
                let r = QueryResult {
                    id: self.results[i].id,
                    sql_query: self.results[i].sql_query.clone(),
                    display: !self.results[i].display,
                };
                self.results[i] = r;
                found = true;
            }
            i = i + 1;
        }
        proof {
            if found {
                let j = choose|j: int| 0 <= j < i && old(self).results@[j].id == id;
                assert(old(self).results()[j].id == id);
            }
            if exists|j: int| 0 <= j < old(self).results().len() && old(self).results()[j].id == id {
                let j = choose|j: int| 0 <= j < old(self).results().len() && old(self).results()[j].id == id;
                assert(old(self).results@[j].id == id);
            }
        }
        found
    }

    /// The ids of the displayed results, newest first.
    pub fn displayed_ids(&self) -> (r: Vec<u64>)
        ensures
            r@ == displayed_newest_first(self.results()),
    {
        let mut out: Vec<u64> = Vec::new();
        let mut i: usize = self.results.len();
        while i > 0
            invariant
                i <= self.results@.len(),
                out@ == displayed_newest_first(self.results@.subrange(i as int, self.results@.len() as int)),
            decreases i,
        {
            i = i - 1;
            proof {
                let s = self.results@.subrange(i as int, self.results@.len() as int);
                assert(s.drop_first() =~= self.results@.subrange(i + 1, self.results@.len() as int));
                assert(s[0] == self.results@[i as int]);
                lemma_displayed_first(s);
            }
            if self.results[i].display {
                out.push(self.results[i].id);
            }
        }
        assert(self.results@.subrange(0, self.results@.len() as int) =~= self.results@);
        out
    }
}

/// Ids of the displayed results of `s`, last first.
pub open spec fn displayed_newest_first(s: Seq<QueryResult>) -> Seq<u64>
    decreases s.len(),
{
    if s.len() == 0 {
        Seq::empty()
    } else {
        let rest = displayed_newest_first(s.drop_last());
        if s.last().display {
            seq![s.last().id] + rest
        } else {
            rest
        }
    }
}

proof fn lemma_displayed_first(s: Seq<QueryResult>)
    requires
        s.len() > 0,
    ensures
        displayed_newest_first(s) == displayed_newest_first(s.drop_first()) + if s[0].display {
            seq![s[0].id]
        } else {
            Seq::<u64>::empty()
        },
    decreases s.len(),
{
    if s.len() == 1 {
        assert(s.drop_first() =~= Seq::<QueryResult>::empty());
        assert(s.drop_last() =~= Seq::<QueryResult>::empty());
        assert(seq![s[0].id] + Seq::<u64>::empty() =~= seq![s[0].id]);
        assert(Seq::<u64>::empty() + Seq::<u64>::empty() =~= Seq::<u64>::empty());
    } else {
        lemma_displayed_first(s.drop_last());
        assert(s.drop_last().drop_first() =~= s.drop_first().drop_last());
        assert(s.drop_first().last() == s.last());
        assert(s.drop_last()[0] == s[0]);
        let tail = if s[0].display {
            seq![s[0].id]
        } else {
            Seq::<u64>::empty()
        };
        let mid = displayed_newest_first(s.drop_first().drop_last());
        if s.last().display {
            assert(seq![s.last().id] + (mid + tail) =~= (seq![s.last().id] + mid) + tail);
        }
    }
}

fn contains_string(v: &Vec<String>, s: &String) -> (r: bool)
    ensures
        r == strings_view(v@).contains(s@),
{
    let mut i: usize = 0;
    while i < v.len()
        invariant
            i <= v@.len(),
            forall|j: int| 0 <= j < i ==> v@[j]@ != s@,
        decreases v@.len() - i,
    {
        if v[i] == *s {
            assert(strings_view(v@)[i as int] == s@);
            return true;
        }
        i = i + 1;
    }
    proof {
        if strings_view(v@).contains(s@) {
            let j = choose|j: int| 0 <= j < strings_view(v@).len() && strings_view(v@)[j] == s@;
            assert(v@[j]@ == s@);
        }
    }
    false
}

} // verus!
