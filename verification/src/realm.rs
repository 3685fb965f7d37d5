//! The tables of a realm database as far as the library reads them: rows of named values, and
//! links from one row to another.
use vstd::prelude::*;

use crate::ieee::Double;
use crate::seqs;
use crate::text;

verus! {

/// A table of at most this many rows is read as a whole; a larger one row by row.
pub const BULK_ROW_LIMIT: usize = 50_000;

/// A row of a table, by their numbers.
#[derive(Debug, Clone, Copy, PartialEq, Eq, Structural)]
pub struct Link {
    pub table: usize,
    pub row: usize,
}

#[derive(Debug)]
pub enum Value {
    Int(i64),
    Bool(bool),
    Text(String),
    /// Milliseconds since the Unix epoch.
    Timestamp(i64),
    /// A single precision number, widened.
    Float(Double),
    Double(Double),
    Uuid(Vec<u8>),
    Link(Link),
    LinkList(Vec<Link>),
    /// A list of values: the strings among them, and where something else stands.
    List(Vec<Option<String>>),
    /// Null, or of a kind that nothing here reads.
    Other,
}

#[derive(Debug)]
pub struct Cell {
    pub name: String,
    pub value: Value,
}

#[derive(Debug)]
pub struct Row {
    pub cells: Vec<Cell>,
}

#[derive(Debug)]
pub enum Table {
    /// The table could not be read.
    Failed(String),
    /// All rows of a small table.
    Bulk(Vec<Row>),
    /// What reading each row of a large table gave, and what reading a row behind its end gives.
    Lazy { rows: Vec<Result<Row, String>>, missing: String },
}

/// The tables of a database under their names.
#[derive(Debug)]
pub struct Store {
    pub names: Vec<String>,
    pub tables: Vec<Table>,
}

pub open spec fn value_links_within(v: Value, n: nat) -> bool {
    match v {
        Value::Link(l) => l.table < n,
        Value::LinkList(ls) => forall|i: int| 0 <= i < ls@.len() ==> (#[trigger] ls@[i]).table < n,
        _ => true,
    }
}

impl Row {
    /// The cells with the name.
    pub open spec fn under(self, name: Seq<char>) -> spec_fn(int) -> bool {
        |i: int| self.cells@[i].name@ == name
    }

    /// The first value under the name.
    pub open spec fn col(self, name: Seq<char>) -> Option<Value> {
        match seqs::least(self.cells@.len() as int, self.under(name)) {
            Some(i) => Some(self.cells@[i].value),
            None => None,
        }
    }

    /// Every link of the row is to one of `n` tables.
    pub open spec fn links_within(self, n: nat) -> bool {
        forall|i: int| 0 <= i < self.cells@.len() ==> value_links_within((#[trigger] self.cells@[i]).value, n)
    }

    pub fn get(&self, name: &str) -> (r: Option<&Value>)
        ensures
            r == match self.col(name@) {
                Some(v) => Some(&v),
                None => None,
            },
            forall|n: nat| #[trigger] self.links_within(n) && r is Some ==> value_links_within(*r->0, n),
    {
        let ghost p = self.under(name@);
        let mut i: usize = 0;
        while i < self.cells.len()
            invariant
                i <= self.cells@.len(),
                p == self.under(name@),
                forall|j: int| 0 <= j < i ==> !#[trigger] p(j),
            decreases self.cells.len() - i,
        {
            if text::same(self.cells[i].name.as_str(), name) {
                assert(p(i as int));
                proof {
                    seqs::lemma_least_found(self.cells@.len() as int, p, i as int);
                }
                return Some(&self.cells[i].value);
            }
            assert(!p(i as int));
            i = i + 1;
        }
        proof {
            seqs::lemma_least_missing(self.cells@.len() as int, p);
        }
        None
    }
}

impl Table {
    /// Every link of every row is to one of `n` tables.
    pub open spec fn links_within(self, n: nat) -> bool {
        match self {
            Table::Failed(_) => true,
            Table::Bulk(rows) => forall|i: int| 0 <= i < rows@.len() ==> (#[trigger] rows@[i]).links_within(n),
            Table::Lazy { rows, missing } => forall|i: int|
                0 <= i < rows@.len() && (#[trigger] rows@[i]) is Ok ==> rows@[i]->Ok_0.links_within(n),
        }
    }
}

impl Store {
    /// Each name has its table, and each link a table to go to.
    pub open spec fn wf(self) -> bool {
        &&& self.names@.len() <= self.tables@.len()
        &&& forall|t: int|
            0 <= t < self.tables@.len() ==> (#[trigger] self.tables@[t]).links_within(self.tables@.len())
    }

    /// The row that a link leads to. In a table that was read whole a row behind the end is none;
    /// in one that is read by rows it is an error.
    pub open spec fn fetch(self, link: Link) -> Result<Option<Row>, Seq<char>> {
        match self.tables@[link.table as int] {
            Table::Failed(e) => Err(e@),
            Table::Bulk(rows) => if link.row < rows@.len() {
                Ok(Some(rows@[link.row as int]))
            } else {
                Ok(None)
            },
            Table::Lazy { rows, missing } => if link.row < rows@.len() {
                match rows@[link.row as int] {
                    Ok(row) => Ok(Some(row)),
                    Err(e) => Err(e@),
                }
            } else {
                Err(missing@)
            },
        }
    }

    /// The row that a link leads to, where an error counts as none.
    pub open spec fn fetch_any(self, link: Link) -> Option<Row> {
        match self.fetch(link) {
            Ok(row) => row,
            Err(_) => None,
        }
    }

    /// The tables with the name.
    pub open spec fn tables_named(self, name: Seq<char>) -> spec_fn(int) -> bool {
        |i: int| self.names@[i]@ == name
    }

    /// The rows of a whole table.
    pub open spec fn whole(self, name: Seq<char>) -> Result<Seq<Row>, Seq<char>> {
        match seqs::least(self.names@.len() as int, self.tables_named(name)) {
            None => Err("数据库中没有 "@ + name + " 表"@),
            Some(i) => match self.tables@[i] {
                Table::Failed(e) => Err(e@),
                Table::Bulk(rows) => Ok(rows@),
                Table::Lazy { .. } => Err(name + " 行数过多，不支持整表载入"@),
            },
        }
    }

    pub fn row(&self, link: &Link) -> (r: Result<Option<&Row>, String>)
        requires
            self.wf(),
            link.table < self.tables@.len(),
        ensures
            match r {
                Ok(Some(row)) => self.fetch(*link) == Ok::<Option<Row>, Seq<char>>(Some(*row))
                    && row.links_within(self.tables@.len()),
                Ok(None) => self.fetch(*link) == Ok::<Option<Row>, Seq<char>>(None),
                Err(e) => self.fetch(*link) == Err::<Option<Row>, Seq<char>>(e@),
            },
    {
        assert(self.tables@[link.table as int].links_within(self.tables@.len()));
        match &self.tables[link.table] {
            Table::Failed(e) => Err(e.clone()),
            Table::Bulk(rows) => {
                if link.row < rows.len() {
                    Ok(Some(&rows[link.row]))
                } else {
                    Ok(None)
                }
            },
            Table::Lazy { rows, missing } => {
                if link.row < rows.len() {
                    match &rows[link.row] {
                        Ok(row) => Ok(Some(row)),
                        Err(e) => Err(e.clone()),
                    }
                } else {
                    Err(missing.clone())
                }
            },
        }
    }

    /// The row that a link leads to; an error counts as none.
    pub fn row_any(&self, link: &Link) -> (r: Option<&Row>)
        requires
            self.wf(),
            link.table < self.tables@.len(),
        ensures
            r == match self.fetch_any(*link) {
                Some(row) => Some(&row),
                None => None,
            },
            r is Some ==> r->0.links_within(self.tables@.len()),
    {
        match self.row(link) {
            Ok(row) => row,
            Err(_) => None,
        }
    }

    pub fn bulk_rows(&self, name: &str) -> (r: Result<&Vec<Row>, String>)
        requires
            self.wf(),
        ensures
            match r {
                Ok(rows) => self.whole(name@) == Ok::<Seq<Row>, Seq<char>>(rows@) && forall|i: int|
                    0 <= i < rows@.len() ==> (#[trigger] rows@[i]).links_within(self.tables@.len()),
                Err(e) => self.whole(name@) == Err::<Seq<Row>, Seq<char>>(e@),
            },
    {
        let ghost p = self.tables_named(name@);
        let mut i: usize = 0;
        while i < self.names.len()
            invariant
                i <= self.names@.len(),
                self.wf(),
                p == self.tables_named(name@),
                forall|j: int| 0 <= j < i ==> !#[trigger] p(j),
            decreases self.names.len() - i,
        {
            if text::same(self.names[i].as_str(), name) {
                assert(p(i as int));
                proof {
                    seqs::lemma_least_found(self.names@.len() as int, p, i as int);
                }
                assert(self.tables@[i as int].links_within(self.tables@.len()));
                return match &self.tables[i] {
                    Table::Failed(e) => Err(e.clone()),
                    Table::Bulk(rows) => Ok(rows),
                    Table::Lazy { .. } => Err(text::owned(name).concat(" 行数过多，不支持整表载入")),
                };
            }
            assert(!p(i as int));
            i = i + 1;
        }
        proof {
            seqs::lemma_least_missing(self.names@.len() as int, p);
        }
        Err(text::owned("数据库中没有 ").concat(name).concat(" 表"))
    }
}

/// Whether a table is read whole; one whose size is not known counts as empty.
pub open spec fn small_enough(row_count: Option<usize>) -> bool {
    match row_count {
        Some(n) => n <= BULK_ROW_LIMIT,
        None => true,
    }
}

pub fn reads_whole(row_count: Option<usize>) -> (r: bool)
    ensures
        r == small_enough(row_count),
{
    match row_count {
        Some(n) => n <= BULK_ROW_LIMIT,
        None => true,
    }
}

/// What `n` items give, one after another: the things that they give, or the first error.
pub open spec fn collect<A>(
    n: nat,
    f: spec_fn(int) -> Result<Option<A>, Seq<char>>,
) -> Result<Seq<A>, Seq<char>>
    decreases n,
{
    if n == 0 {
        Ok(Seq::empty())
    } else {
        match collect((n - 1) as nat, f) {
            Err(e) => Err(e),
            Ok(s) => match f(n - 1) {
                Err(e) => Err(e),
                Ok(None) => Ok(s),
                Ok(Some(a)) => Ok(s.push(a)),
            },
        }
    }
}

/// An error ends the collecting.
pub proof fn lemma_collect_error<A>(
    k: nat,
    n: nat,
    f: spec_fn(int) -> Result<Option<A>, Seq<char>>,
)
    requires
        k <= n,
        collect(k, f) is Err,
    ensures
        collect(n, f) == collect(k, f),
    decreases n,
{
    if k < n {
        lemma_collect_error(k, (n - 1) as nat, f);
    }
}

/// Everything that is collected was given by one of the items.
pub proof fn lemma_collect_member<A>(
    n: nat,
    f: spec_fn(int) -> Result<Option<A>, Seq<char>>,
    k: int,
)
    requires
        collect(n, f) is Ok,
        0 <= k < collect(n, f)->Ok_0.len(),
    ensures
        exists|i: int|
            0 <= i < n && #[trigger] f(i) == Ok::<Option<A>, Seq<char>>(
                Some(collect(n, f)->Ok_0[k]),
            ),
    decreases n,
{
    if n > 0 {
        let before = collect((n - 1) as nat, f)->Ok_0;
        if k < before.len() {
            lemma_collect_member((n - 1) as nat, f, k);
            let i = choose|i: int|
                0 <= i < n - 1 && #[trigger] f(i) == Ok::<Option<A>, Seq<char>>(Some(before[k]));
            assert(f(i) == Ok::<Option<A>, Seq<char>>(Some(collect(n, f)->Ok_0[k])));
        } else {
            assert(f(n - 1) == Ok::<Option<A>, Seq<char>>(Some(collect(n, f)->Ok_0[k])));
        }
    }
}

/// The text of a value, empty where it is none.
pub open spec fn text_of(v: Option<Value>) -> Seq<char> {
    match v {
        Some(Value::Text(s)) => s@,
        _ => Seq::empty(),
    }
}

pub fn string_value(v: Option<&Value>) -> (r: String)
    ensures
        r@ == text_of(opt(v)),
{
    match v {
        Some(Value::Text(s)) => s.clone(),
        _ => String::new(),
    }
}

/// The value behind an optional reference.
pub open spec fn opt(v: Option<&Value>) -> Option<Value> {
    match v {
        Some(x) => Some(*x),
        None => None,
    }
}

pub open spec fn int_of(v: Option<Value>, fallback: i64) -> i64 {
    match v {
        Some(Value::Int(n)) => n,
        _ => fallback,
    }
}

pub fn int_value(v: Option<&Value>, fallback: i64) -> (r: i64)
    ensures
        r == int_of(opt(v), fallback),
{
    match v {
        Some(Value::Int(n)) => *n,
        _ => fallback,
    }
}

pub open spec fn double_of(v: Option<Value>, fallback: Double) -> Double {
    match v {
        Some(Value::Double(x)) => x,
        _ => fallback,
    }
}

pub fn double_value(v: Option<&Value>, fallback: Double) -> (r: Double)
    ensures
        r == double_of(opt(v), fallback),
{
    match v {
        Some(Value::Double(x)) => *x,
        _ => fallback,
    }
}

pub open spec fn float_of(v: Option<Value>) -> Double {
    match v {
        Some(Value::Float(x)) => x,
        _ => Double { bits: 0 },
    }
}

/// A single precision number, zero where there is none.
pub fn float_value(v: Option<&Value>) -> (r: Double)
    ensures
        r == float_of(opt(v)),
{
    match v {
        Some(Value::Float(x)) => *x,
        _ => Double { bits: 0 },
    }
}

pub open spec fn timestamp_of(v: Option<Value>) -> i64 {
    match v {
        Some(Value::Timestamp(t)) => t,
        _ => 0,
    }
}

/// Milliseconds since the Unix epoch, zero where there is no time.
pub fn timestamp_ms(v: Option<&Value>) -> (r: i64)
    ensures
        r == timestamp_of(opt(v)),
{
    match v {
        Some(Value::Timestamp(t)) => *t,
        _ => 0,
    }
}

/// Two hexadecimal digits for each byte.
pub open spec fn hex_bytes(b: Seq<u8>) -> Seq<char>
    decreases b.len(),
{
    if b.len() == 0 {
        Seq::empty()
    } else {
        hex_bytes(b.drop_last()) + text::hex(b.last() as nat, 2)
    }
}

pub open spec fn uuid_of(v: Option<Value>) -> Seq<char> {
    match v {
        Some(Value::Uuid(b)) => hex_bytes(b@),
        _ => Seq::empty(),
    }
}

pub fn uuid_string(v: Option<&Value>) -> (r: String)
    ensures
        r@ == uuid_of(opt(v)),
{
    let mut r: String = String::new();
    if let Some(Value::Uuid(b)) = v {
        let mut i: usize = 0;
        while i < b.len()
            invariant
                i <= b@.len(),
                r@ == hex_bytes(b@.take(i as int)),
            decreases b.len() - i,
        {
            assert(b@.take(i + 1).drop_last() =~= b@.take(i as int));
            r.append(text::hex_of(b[i] as u64, 2).as_str());
            i = i + 1;
        }
        assert(b@.take(b@.len() as int) =~= b@);
    }
    r
}

/// The links of a list of links, none where it is something else.
pub open spec fn links_of(v: Option<Value>) -> Seq<Link> {
    match v {
        Some(Value::LinkList(ls)) => ls@,
        _ => Seq::empty(),
    }
}

/// The first link of a list.
pub fn first_link(v: &Value) -> (r: Option<Link>)
    ensures
        r == (if links_of(Some(*v)).len() > 0 {
            Some(links_of(Some(*v))[0])
        } else {
            None
        }),
        forall|n: nat| #[trigger] value_links_within(*v, n) && r is Some ==> r->0.table < n,
{
    match v {
        Value::LinkList(ls) => {
            if ls.len() > 0 {
                Some(ls[0])
            } else {
                None
            }
        },
        _ => None,
    }
}

// ---------- what a row shows ----------

/// `t` is the text under a column: nothing where it holds no text.
pub open spec fn shows_text(v: Option<Value>, t: Seq<char>) -> bool {
    match v {
        Some(Value::Text(s)) => t == s@,
        _ => t.len() == 0,
    }
}

/// `n` is the whole number under a column, `fallback` where it holds none.
pub open spec fn shows_int(v: Option<Value>, fallback: int, n: i64) -> bool {
    match v {
        Some(Value::Int(m)) => n == m,
        _ => n == fallback,
    }
}

/// `x` is the double under a column, zero where it holds none.
pub open spec fn shows_double(v: Option<Value>, x: Double) -> bool {
    match v {
        Some(Value::Double(d)) => x == d,
        _ => x.bits == 0,
    }
}

/// `x` is the single under a column, widened; zero where it holds none.
pub open spec fn shows_float(v: Option<Value>, x: Double) -> bool {
    match v {
        Some(Value::Float(d)) => x == d,
        _ => x.bits == 0,
    }
}

/// A column holds the value of the first cell with its name, and nothing where no cell has it.
pub proof fn law_column_is_the_first_of_its_name(row: Row, name: Seq<char>, k: int)
    ensures
        0 <= k < row.cells@.len() && row.cells@[k].name@ == name && (forall|j: int|
            0 <= j < k ==> (#[trigger] row.cells@[j]).name@ != name) ==> row.col(name) == Some(
            row.cells@[k].value,
        ),
        (forall|j: int| 0 <= j < row.cells@.len() ==> (#[trigger] row.cells@[j]).name@ != name)
            ==> row.col(name) is None,
{
    let p = row.under(name);
    seqs::lemma_least(row.cells@.len() as int, p);
    if 0 <= k < row.cells@.len() && row.cells@[k].name@ == name && (forall|j: int|
        0 <= j < k ==> (#[trigger] row.cells@[j]).name@ != name) {
        assert(p(k));
        assert forall|j: int| 0 <= j < k implies !#[trigger] p(j) by {
            assert(row.cells@[j].name@ != name);
        }
        assert(seqs::is_least(row.cells@.len() as int, p, k));
        seqs::lemma_least_found(row.cells@.len() as int, p, k);
    }
    if forall|j: int| 0 <= j < row.cells@.len() ==> (#[trigger] row.cells@[j]).name@ != name {
        seqs::lemma_least_missing(row.cells@.len() as int, p);
    }
}

/// A value is read as what it is, and as nothing where it is something else.
pub proof fn law_values_are_read_as_they_are(v: Option<Value>, n: i64, x: Double)
    ensures
        shows_text(v, text_of(v)),
        shows_int(v, n as int, int_of(v, n)),
        v matches Some(Value::Double(d)) ==> double_of(v, x) == d,
        !(v matches Some(Value::Double(_))) ==> double_of(v, x) == x,
        shows_float(v, float_of(v)),
        v matches Some(Value::Timestamp(t)) ==> timestamp_of(v) == t,
        !(v matches Some(Value::Timestamp(_))) ==> timestamp_of(v) == 0,
        v matches Some(Value::LinkList(ls)) ==> links_of(v) == ls@,
        !(v matches Some(Value::LinkList(_))) ==> links_of(v).len() == 0,
{
}

/// A link leads to the row of its number in the table of its number.
pub proof fn law_link_leads_to_its_row(store: Store, link: Link)
    requires
        link.table < store.tables@.len(),
    ensures
        store.tables@[link.table as int] matches Table::Bulk(rows) ==> (link.row < rows@.len()
            ==> store.fetch(link) == Ok::<Option<Row>, Seq<char>>(Some(rows@[link.row as int]))) && (
        link.row >= rows@.len() ==> store.fetch(link) == Ok::<Option<Row>, Seq<char>>(None)),
        store.tables@[link.table as int] matches Table::Lazy { rows, missing } ==> (link.row
            >= rows@.len() ==> store.fetch(link) == Err::<Option<Row>, Seq<char>>(missing@)) && (
        link.row < rows@.len() ==> match rows@[link.row as int] {
            Ok(row) => store.fetch(link) == Ok::<Option<Row>, Seq<char>>(Some(row)),
            Err(e) => store.fetch(link) == Err::<Option<Row>, Seq<char>>(e@),
        }),
        store.tables@[link.table as int] matches Table::Failed(e) ==> store.fetch(link) == Err::<
            Option<Row>,
            Seq<char>,
        >(e@),
        store.fetch(link) matches Ok(row) ==> store.fetch_any(link) == row,
        store.fetch(link) is Err ==> store.fetch_any(link) is None,
{
}

/// A table that is asked for by its name is the first that has it, with all of its rows.
pub proof fn law_table_is_found_by_name(store: Store, name: Seq<char>, k: int)
    requires
        0 <= k < store.names@.len() <= store.tables@.len(),
        store.names@[k]@ == name,
        forall|j: int| 0 <= j < k ==> (#[trigger] store.names@[j])@ != name,
    ensures
        store.tables@[k] matches Table::Bulk(rows) ==> store.whole(name) == Ok::<
            Seq<Row>,
            Seq<char>,
        >(rows@),
        store.tables@[k] matches Table::Failed(e) ==> store.whole(name) == Err::<
            Seq<Row>,
            Seq<char>,
        >(e@),
        store.tables@[k] is Lazy ==> store.whole(name) == Err::<Seq<Row>, Seq<char>>(
            name + " 行数过多，不支持整表载入"@,
        ),
{
    let p = store.tables_named(name);
    assert(p(k));
    assert(seqs::is_least(store.names@.len() as int, p, k));
    seqs::lemma_least_found(store.names@.len() as int, p, k);
}

/// What is collected is what each item gives, in the order of the items: one more item adds what it
/// gives, or nothing, or ends it with its error.
pub proof fn law_each_item_is_collected<A>(
    n: nat,
    f: spec_fn(int) -> Result<Option<A>, Seq<char>>,
    i: int,
)
    requires
        collect(n, f) is Ok,
    ensures
        0 <= i < n ==> f(i) is Ok,
        0 <= i < n && f(i)->Ok_0 is Some ==> collect(n, f)->Ok_0.contains(f(i)->Ok_0->0),
        f(n as int) matches Ok(Some(a)) ==> collect(n + 1, f) == Ok::<Seq<A>, Seq<char>>(
            collect(n, f)->Ok_0.push(a),
        ),
        f(n as int) matches Ok(None) ==> collect(n + 1, f) == collect(n, f),
        f(n as int) matches Err(e) ==> collect(n + 1, f) == Err::<Seq<A>, Seq<char>>(e),
        n == 0 ==> collect(n, f)->Ok_0.len() == 0,
    decreases n,
{
    if 0 <= i < n {
        let m = (n - 1) as nat;
        let before = collect(m, f)->Ok_0;
        let after = collect(n, f)->Ok_0;
        if i < m {
            law_each_item_is_collected(m, f, i);
            if f(i)->Ok_0 is Some {
                let k = choose|k: int| 0 <= k < before.len() && before[k] == f(i)->Ok_0->0;
                assert(after[k] == f(i)->Ok_0->0);
            }
        } else if f(i)->Ok_0 is Some {
            assert(after[after.len() - 1] == f(i)->Ok_0->0);
        }
    }
}

/// An id is written as two digits for each of its bytes, in their order, the higher one first.
pub proof fn law_id_is_written_in_hex(b: Seq<u8>, i: int)
    requires
        0 <= i < b.len(),
    ensures
        hex_bytes(b).len() == 2 * b.len(),
        hex_bytes(b)[2 * i] == text::digit((b[i] as nat) / 16),
        hex_bytes(b)[2 * i + 1] == text::digit((b[i] as nat) % 16),
    decreases b.len(),
{
    let n = b.last() as nat;
    assert(text::hex(n, 2).len() == 2 && text::hex(n, 2)[0] == text::digit(n / 16 % 16) && text::hex(
        n,
        2,
    )[1] == text::digit(n % 16)) by {
        reveal_with_fuel(text::hex, 3);
    }
    lemma_hex_length(b.drop_last());
    if i < b.len() - 1 {
        law_id_is_written_in_hex(b.drop_last(), i);
    }
}

proof fn lemma_hex_length(b: Seq<u8>)
    ensures
        hex_bytes(b).len() == 2 * b.len(),
    decreases b.len(),
{
    if b.len() > 0 {
        reveal_with_fuel(text::hex, 3);
        lemma_hex_length(b.drop_last());
    }
}

/// Tables of up to fifty thousand rows are read whole, and those whose size is not known.
pub proof fn law_small_tables_are_read_whole(n: usize)
    ensures
        small_enough(Some(n)) <==> n <= 50_000,
        small_enough(None),
{
}

/// A table that there is not is told by its name.
pub proof fn law_missing_table_is_told(store: Store, name: Seq<char>)
    requires
        forall|j: int| 0 <= j < store.names@.len() ==> (#[trigger] store.names@[j])@ != name,
    ensures
        store.whole(name) == Err::<Seq<Row>, Seq<char>>("数据库中没有 "@ + name + " 表"@),
{
    let p = store.tables_named(name);
    assert forall|j: int| 0 <= j < store.names@.len() implies !#[trigger] p(j) by {
        assert(store.names@[j]@ != name);
    }
    seqs::lemma_least_missing(store.names@.len() as int, p);
}

} // verus!
