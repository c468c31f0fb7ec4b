use vstd::prelude::*;
use vstd::std_specs::cmp::PartialEqSpecImpl;
use crate::dtype::DataType;
use crate::error::ErrorKind;
use crate::error::PlanError;

verus! {

/// The mathematical model of a schema: its columns in order, each a name and a type.
pub type Columns = Seq<(Seq<char>, DataType)>;

/// No two columns share a name.
pub open spec fn names_unique(cols: Columns) -> bool {
    forall|i: int, j: int| 0 <= i < j < cols.len() ==> cols[i].0 != cols[j].0
}

/// Some column is called `name`.
pub open spec fn has_column(cols: Columns, name: Seq<char>) -> bool {
    exists|i: int| 0 <= i < cols.len() && #[trigger] cols[i].0 == name
}

/// The place of a column called `name`, where there is one.
pub open spec fn index_of(cols: Columns, name: Seq<char>) -> int {
    choose|i: int| 0 <= i < cols.len() && #[trigger] cols[i].0 == name
}

/// The type of the column called `name`, if there is one.
pub open spec fn dtype_of(cols: Columns, name: Seq<char>) -> Option<DataType> {
    if has_column(cols, name) {
        Some(cols[index_of(cols, name)].1)
    } else {
        None
    }
}

/// `cols` with the column `name` set to `dtype`: in place where the name is
/// already there, at the end where it is new.
pub open spec fn with_column(cols: Columns, name: Seq<char>, dtype: DataType) -> Columns {
    if has_column(cols, name) {
        cols.update(index_of(cols, name), (name, dtype))
    } else {
        cols.push((name, dtype))
    }
}

/// `cols` with every column of `other` set in turn, first to last.
pub open spec fn merge(cols: Columns, other: Columns) -> Columns
    decreases other.len(),
{
    if other.len() == 0 {
        cols
    } else {
        with_column(merge(cols, other.drop_last()), other.last().0, other.last().1)
    }
}

/// `cols` without the column called `name`; unchanged where there is none.
pub open spec fn without(cols: Columns, name: Seq<char>) -> Columns {
    if has_column(cols, name) {
        cols.remove(index_of(cols, name))
    } else {
        cols
    }
}

/// `cols` without any column called by one of `names`.
pub open spec fn without_all(cols: Columns, names: Seq<Seq<char>>) -> Columns
    decreases names.len(),
{
    if names.len() == 0 {
        cols
    } else {
        without(without_all(cols, names.drop_last()), names.last())
    }
}

/// Setting a column keeps the names distinct.
pub proof fn lemma_with_column_unique(cols: Columns, name: Seq<char>, dtype: DataType)
    requires
        names_unique(cols),
    ensures
        names_unique(with_column(cols, name, dtype)),
        has_column(with_column(cols, name, dtype), name),
        dtype_of(with_column(cols, name, dtype), name) == Some(dtype),
{
    let out = with_column(cols, name, dtype);
    if has_column(cols, name) {
        let k = index_of(cols, name);
        assert(out[k].0 == name);
    } else {
        assert(out[cols.len() as int].0 == name);
    }
    let k2 = index_of(out, name);
    assert(out[k2].0 == name);
}

/// A column found at `i` is the one that `index_of` names.
pub proof fn lemma_index_of_is(cols: Columns, name: Seq<char>, i: int)
    requires
        names_unique(cols),
        0 <= i < cols.len(),
        cols[i].0 == name,
    ensures
        has_column(cols, name),
        index_of(cols, name) == i,
{
    let k = index_of(cols, name);
    assert(cols[k].0 == name);
}

/// A name that no column carries is not in the schema.
pub proof fn lemma_absent(cols: Columns, name: Seq<char>)
    requires
        forall|i: int| 0 <= i < cols.len() ==> cols[i].0 != name,
    ensures
        !has_column(cols, name),
{
}

/// Merging keeps the names distinct.
pub proof fn lemma_merge_unique(cols: Columns, other: Columns)
    requires
        names_unique(cols),
    ensures
        names_unique(merge(cols, other)),
    decreases other.len(),
{
    if other.len() > 0 {
        lemma_merge_unique(cols, other.drop_last());
        lemma_with_column_unique(merge(cols, other.drop_last()), other.last().0, other.last().1);
    }
}

/// Removing a column keeps the names distinct, and the name is then gone.
pub proof fn lemma_without_unique(cols: Columns, name: Seq<char>)
    requires
        names_unique(cols),
    ensures
        names_unique(without(cols, name)),
        !has_column(without(cols, name), name),
{
    let out = without(cols, name);
    if has_column(cols, name) {
        let k = index_of(cols, name);
        assert(cols[k].0 == name);
        assert forall|i: int| 0 <= i < out.len() implies out[i].0 != name by {
            if i < k {
                assert(out[i] == cols[i]);
            } else {
                assert(out[i] == cols[i + 1]);
            }
        }
    }
}

/// Removing several columns keeps the names distinct.
pub proof fn lemma_without_all_unique(cols: Columns, names: Seq<Seq<char>>)
    requires
        names_unique(cols),
    ensures
        names_unique(without_all(cols, names)),
    decreases names.len(),
{
    if names.len() > 0 {
        lemma_without_all_unique(cols, names.drop_last());
        lemma_without_unique(without_all(cols, names.drop_last()), names.last());
    }
}


/// Merging keeps every column of `cols` in its place, under its name.
pub proof fn lemma_merge_keeps_places(cols: Columns, other: Columns)
    requires
        names_unique(cols),
    ensures
        merge(cols, other).len() >= cols.len(),
        forall|i: int| 0 <= i < cols.len() ==> (#[trigger] merge(cols, other)[i]).0 == cols[i].0,
    decreases other.len(),
{
    if other.len() > 0 {
        let before = merge(cols, other.drop_last());
        lemma_merge_keeps_places(cols, other.drop_last());
        lemma_merge_unique(cols, other.drop_last());
        if has_column(before, other.last().0) {
            let k = index_of(before, other.last().0);
            assert(before[k].0 == other.last().0);
        }
    }
}

/// Where no name of `other` is a name of `cols` and no name comes twice,
/// merging puts the columns of `other` after those of `cols`, as they are.
pub proof fn lemma_merge_distinct(cols: Columns, other: Columns)
    requires
        names_unique(cols + other),
    ensures
        merge(cols, other) == cols + other,
    decreases other.len(),
{
    if other.len() == 0 {
        assert(cols + other =~= cols);
    } else {
        let rest = other.drop_last();
        let all = cols + other;
        assert forall|i: int, j: int| 0 <= i < j < (cols + rest).len() implies (cols + rest)[i].0 != (
        cols + rest)[j].0 by {
            assert((cols + rest)[i] == all[i]);
            assert((cols + rest)[j] == all[j]);
        }
        lemma_merge_distinct(cols, rest);
        assert forall|i: int| 0 <= i < (cols + rest).len() implies (cols + rest)[i].0
            != other.last().0 by {
            assert((cols + rest)[i] == all[i]);
            assert(all[all.len() - 1] == other.last());
        }
        lemma_absent(cols + rest, other.last().0);
        assert((cols + rest).push(other.last()) =~= cols + other);
    }
}

/// Some column of `fields` before place `k` is called `name`.
pub open spec fn named_before(fields: Columns, k: int, name: Seq<char>) -> bool {
    exists|j: int| 0 <= j < k && j < fields.len() && #[trigger] fields[j].0 == name
}

/// What setting the columns `fields` one by one into the empty schema comes
/// to: a schema with distinct names, that has exactly the names of `fields`,
/// and that is as long as `fields` exactly when no name comes twice in `fields`.
pub proof fn lemma_collected(fields: Columns)
    ensures
        names_unique(merge(Seq::empty(), fields)),
        forall|x: Seq<char>|
            has_column(merge(Seq::empty(), fields), x) <==> named_before(
                fields,
                fields.len() as int,
                x,
            ),
        merge(Seq::empty(), fields).len() <= fields.len(),
        merge(Seq::empty(), fields).len() == fields.len() <==> names_unique(fields),
    decreases fields.len(),
{
    let m = merge(Seq::empty(), fields);
    if fields.len() == 0 {
        assert forall|x: Seq<char>| has_column(m, x) <==> named_before(fields, 0, x) by {}
    } else {
        let rest = fields.drop_last();
        let last = fields.last();
        let n = rest.len() as int;
        let before = merge(Seq::empty(), rest);
        lemma_collected(rest);
        lemma_with_column_unique(before, last.0, last.1);
        assert(m == with_column(before, last.0, last.1));
        assert forall|x: Seq<char>| has_column(m, x) <==> named_before(fields, n + 1, x) by {
            if has_column(m, x) {
                let i = index_of(m, x);
                assert(m[i].0 == x);
                if has_column(before, last.0) {
                    let k = index_of(before, last.0);
                    assert(before[k].0 == last.0);
                    if i == k {
                        assert(fields[n].0 == x);
                    } else {
                        assert(before[i].0 == x);
                        assert(named_before(rest, n, x));
                        let j = choose|j: int| 0 <= j < n && j < rest.len() && #[trigger] rest[j].0 == x;
                        assert(fields[j].0 == x);
                    }
                } else {
                    if i == before.len() {
                        assert(fields[n].0 == x);
                    } else {
                        assert(before[i].0 == x);
                        assert(named_before(rest, n, x));
                        let j = choose|j: int| 0 <= j < n && j < rest.len() && #[trigger] rest[j].0 == x;
                        assert(fields[j].0 == x);
                    }
                }
            }
            if named_before(fields, n + 1, x) {
                let j = choose|j: int| 0 <= j < n + 1 && j < fields.len() && #[trigger] fields[j].0 == x;
                if j == n {
                    assert(x == last.0);
                } else {
                    assert(rest[j].0 == x);
                    assert(named_before(rest, n, x));
                    assert(has_column(before, x));
                    let i = index_of(before, x);
                    assert(before[i].0 == x);
                    if has_column(before, last.0) {
                        let k = index_of(before, last.0);
                        assert(before[k].0 == last.0);
                    }
                    assert(m[i].0 == x);
                }
            }
        }
        if names_unique(fields) {
            assert forall|i: int, j: int| 0 <= i < j < rest.len() implies rest[i].0 != rest[j].0 by {
                assert(fields[i].0 != fields[j].0);
            }
            if has_column(before, last.0) {
                assert(named_before(rest, n, last.0));
                let j = choose|j: int| 0 <= j < n && j < rest.len() && #[trigger] rest[j].0 == last.0;
                assert(fields[j].0 == fields[n].0);
            }
        }
        if m.len() == fields.len() {
            assert(!has_column(before, last.0));
            assert(names_unique(rest));
            assert forall|i: int, j: int| 0 <= i < j < fields.len() implies fields[i].0
                != fields[j].0 by {
                if j == n {
                    if fields[i].0 == fields[j].0 {
                        assert(rest[i].0 == last.0);
                        assert(named_before(rest, n, last.0));
                    }
                } else {
                    assert(rest[i].0 != rest[j].0);
                }
            }
        }
    }
}

/// Taking out names that are no columns changes nothing.
pub proof fn lemma_without_all_absent(cols: Columns, names: Seq<Seq<char>>)
    requires
        forall|i: int| 0 <= i < names.len() ==> !has_column(cols, #[trigger] names[i]),
    ensures
        without_all(cols, names) == cols,
    decreases names.len(),
{
    if names.len() > 0 {
        assert forall|i: int| 0 <= i < names.drop_last().len() implies !has_column(
            cols,
            #[trigger] names.drop_last()[i],
        ) by {
            assert(names.drop_last()[i] == names[i]);
        }
        lemma_without_all_absent(cols, names.drop_last());
        assert(!has_column(cols, names[names.len() - 1]));
    }
}

/// What is left after the columns called `names` were taken out: the columns
/// that are called otherwise, with their types, in the order they had.
pub proof fn lemma_without_all_keeps(cols: Columns, names: Seq<Seq<char>>)
    requires
        names_unique(cols),
    ensures
        without_all(cols, names) == cols.filter(|c: (Seq<char>, DataType)| !names.contains(c.0)),
    decreases names.len(),
{
    let keep = |c: (Seq<char>, DataType)| !names.contains(c.0);
    if names.len() == 0 {
        lemma_filter_all(cols, keep);
    } else {
        let rest = names.drop_last();
        let last = names.last();
        let keep_rest = |c: (Seq<char>, DataType)| !rest.contains(c.0);
        lemma_without_all_keeps(cols, rest);
        lemma_without_all_unique(cols, rest);
        let mid = without_all(cols, rest);
        let drop_last_name = |c: (Seq<char>, DataType)| c.0 != last;
        lemma_without_is_filter(mid, last);
        assert forall|c: (Seq<char>, DataType)| #[trigger] keep(c) == (keep_rest(c) && drop_last_name(c)) by {
            if names.contains(c.0) {
                let i = choose|i: int| 0 <= i < names.len() && names[i] == c.0;
                if i < rest.len() {
                    assert(rest[i] == c.0);
                }
            }
            if rest.contains(c.0) {
                let i = choose|i: int| 0 <= i < rest.len() && rest[i] == c.0;
                assert(names[i] == c.0);
            }
            if c.0 == last {
                assert(names[names.len() - 1] == c.0);
            }
        }
        lemma_filter_twice(cols, keep_rest, drop_last_name, keep);
    }
}

/// A filter that every element passes changes nothing.
proof fn lemma_filter_all<A>(s: Seq<A>, f: spec_fn(A) -> bool)
    requires
        forall|i: int| 0 <= i < s.len() ==> f(#[trigger] s[i]),
    ensures
        s.filter(f) == s,
    decreases s.len(),
{
    reveal(Seq::filter);
    if s.len() > 0 {
        lemma_filter_all(s.drop_last(), f);
        assert(s.drop_last().push(s.last()) =~= s);
    }
}

/// Filtering by one test and then by another is filtering by both.
proof fn lemma_filter_twice<A>(
    s: Seq<A>,
    f: spec_fn(A) -> bool,
    g: spec_fn(A) -> bool,
    both: spec_fn(A) -> bool,
)
    requires
        forall|a: A| #[trigger] both(a) == (f(a) && g(a)),
    ensures
        s.filter(f).filter(g) == s.filter(both),
    decreases s.len(),
{
    reveal(Seq::filter);
    if s.len() > 0 {
        lemma_filter_twice(s.drop_last(), f, g, both);
        if f(s.last()) {
            assert(s.drop_last().filter(f).push(s.last()).drop_last() =~= s.drop_last().filter(f));
        }
    }
}

/// Taking out the column called `name` keeps the columns called otherwise.
proof fn lemma_without_is_filter(cols: Columns, name: Seq<char>)
    requires
        names_unique(cols),
    ensures
        without(cols, name) == cols.filter(|c: (Seq<char>, DataType)| c.0 != name),
    decreases cols.len(),
{
    reveal(Seq::filter);
    let f = |c: (Seq<char>, DataType)| c.0 != name;
    if cols.len() == 0 {
    } else {
        let rest = cols.drop_last();
        assert forall|i: int, j: int| 0 <= i < j < rest.len() implies rest[i].0 != rest[j].0 by {
            assert(cols[i].0 != cols[j].0);
        }
        lemma_without_is_filter(rest, name);
        if cols.last().0 == name {
            lemma_index_of_is(cols, name, cols.len() - 1);
            assert(cols.remove(cols.len() - 1) =~= rest);
            assert forall|i: int| 0 <= i < rest.len() implies rest[i].0 != name by {
                assert(cols[i].0 != cols[cols.len() - 1].0);
            }
            lemma_absent(rest, name);
        } else {
            if has_column(cols, name) {
                let k = index_of(cols, name);
                assert(cols[k].0 == name);
                lemma_index_of_is(rest, name, k);
                assert(cols.remove(k) =~= rest.remove(k).push(cols.last()));
            } else {
                assert forall|i: int| 0 <= i < rest.len() implies rest[i].0 != name by {
                    if rest[i].0 == name {
                        assert(cols[i].0 == name);
                    }
                }
                lemma_absent(rest, name);
                assert(rest.push(cols.last()) =~= cols);
            }
        }
    }
}

/// String comparison of the standard library: two string slices are equal
/// exactly when they hold the same characters.
#[verifier::external_body]
pub(crate) fn same_text(a: &str, b: &str) -> (r: bool)
    ensures
        r == (a@ == b@),
{
    a == b
}

/// A column: its name and its type.
#[derive(Debug)]
pub struct Field {
    pub name: String,
    pub dtype: DataType,
}

impl View for Field {
    type V = (Seq<char>, DataType);

    open spec fn view(&self) -> (Seq<char>, DataType) {
        (self.name@, self.dtype)
    }
}

impl Field {
    pub fn new(name: String, dtype: DataType) -> (f: Field)
        ensures
            f@ == (name@, dtype),
    {
        Field { name, dtype }
    }
}

impl Clone for Field {
    fn clone(&self) -> (r: Self)
        ensures
            r@ == self@,
    {
        Field { name: self.name.clone(), dtype: self.dtype.clone() }
    }
}

/// The columns that a vector of fields stands for.
pub open spec fn columns_of(fields: Seq<Field>) -> Columns {
    fields.map_values(|f: Field| f@)
}

/// An ordered mapping from column name to data type. No name occurs twice.
#[derive(Debug)]
pub struct Schema {
    fields: Vec<Field>,
}

impl View for Schema {
    type V = Columns;

    closed spec fn view(&self) -> Columns {
        columns_of(self.fields@)
    }
}

impl Schema {
    #[verifier::type_invariant]
    spec fn distinct(&self) -> bool {
        names_unique(self@)
    }

    /// The schema without columns.
    pub fn new() -> (s: Schema)
        ensures
            s@ == Seq::<(Seq<char>, DataType)>::empty(),
    {
        let s = Schema { fields: Vec::new() };
        assert(s@ =~= Seq::<(Seq<char>, DataType)>::empty());
        s
    }

    /// The number of columns. The names of a schema are always distinct.
    pub fn len(&self) -> (n: usize)
        ensures
            n == self@.len(),
            names_unique(self@),
    {
        proof {
            use_type_invariant(self);
        }
        self.fields.len()
    }

    pub fn is_empty(&self) -> (b: bool)
        ensures
            b == (self@.len() == 0),
    {
        self.fields.len() == 0
    }

    /// Where the column called `name` stands.
    fn position(&self, name: &str) -> (r: Option<usize>)
        ensures
            match r {
                Some(i) => i < self@.len() && has_column(self@, name@) && index_of(self@, name@) == i,
                None => !has_column(self@, name@),
            },
    {
        proof {
            use_type_invariant(self);
        }
        let mut i: usize = 0;
        while i < self.fields.len()
            invariant
                i <= self.fields.len(),
                names_unique(self@),
                forall|j: int| 0 <= j < i ==> self@[j].0 != name@,
            decreases self.fields.len() - i,
        {
            if same_text(self.fields[i].name.as_str(), name) {
                proof {
                    lemma_index_of_is(self@, name@, i as int);
                }
                return Some(i);
            }
            i = i + 1;
        }
        None
    }

    /// Whether a column is called `name`.
    pub fn contains(&self, name: &str) -> (b: bool)
        ensures
            b == has_column(self@, name@),
    {
        self.position(name).is_some()
    }

    /// The type of the column called `name`.
    pub fn get(&self, name: &str) -> (r: Option<&DataType>)
        ensures
            match r {
                Some(d) => dtype_of(self@, name@) == Some(*d),
                None => dtype_of(self@, name@) is None,
            },
    {
        match self.position(name) {
            Some(i) => Some(&self.fields[i].dtype),
            None => None,
        }
    }

    /// The type of the column called `name`, or a `ColumnNotFound` failure
    /// that names it.
    pub fn try_get(&self, name: &str) -> (r: Result<&DataType, PlanError>)
        ensures
            match r {
                Ok(d) => dtype_of(self@, name@) == Some(*d),
                Err(e) => dtype_of(self@, name@) is None && e.kind == ErrorKind::ColumnNotFound
                    && e.subject@ == name@ && e.context@.len() == 0,
            },
    {
        match self.position(name) {
            Some(i) => Ok(&self.fields[i].dtype),
            None => Err(PlanError::new(ErrorKind::ColumnNotFound, name.to_owned())),
        }
    }

    /// The column at place `i`.
    pub fn get_at_index(&self, i: usize) -> (f: &Field)
        requires
            i < self@.len(),
        ensures
            f@ == self@[i as int],
            names_unique(self@),
    {
        proof {
            use_type_invariant(self);
        }
        &self.fields[i]
    }

    /// Sets the column `name` to `dtype`: an existing column keeps its place
    /// and takes the new type, a new one goes to the end. Returns the type
    /// that the column had before.
    pub fn with_column(&mut self, name: String, dtype: DataType) -> (r: Option<DataType>)
        ensures
            final(self)@ == with_column(old(self)@, name@, dtype),
            r == dtype_of(old(self)@, name@),
    {
        proof {
            use_type_invariant(&*self);
            lemma_with_column_unique(self@, name@, dtype);
        }
        let pos = self.position(name.as_str());
        let mut fields: Vec<Field> = Vec::new();
        core::mem::swap(&mut fields, &mut self.fields);
        let r = match pos {
            Some(i) => {
                let before = fields[i].dtype.clone();
                fields.set(i, Field { name, dtype });
                Some(before)
            },
            None => {
                fields.push(Field { name, dtype });
                None
            },
        };
        assert(columns_of(fields@) =~= with_column(old(self)@, name@, dtype));
        self.fields = fields;
        r
    }

    /// Sets every column of `other` in turn, first to last.
    pub fn merge(&mut self, other: Schema)
        ensures
            final(self)@ == merge(old(self)@, other@),
    {
        let mut i: usize = 0;
        while i < other.fields.len()
            invariant
                i <= other.fields.len(),
                self@ == merge(old(self)@, other@.take(i as int)),
            decreases other.fields.len() - i,
        {
            let f = other.fields[i].clone();
            proof {
                assert(other@.take(i + 1).drop_last() =~= other@.take(i as int));
                assert(other@.take(i + 1).last() == f@);
            }
            self.with_column(f.name, f.dtype);
            i = i + 1;
        }
        assert(other@.take(i as int) =~= other@);
    }

    /// Takes out the column called `name`, if there is one, and returns its type.
    pub fn remove(&mut self, name: &str) -> (r: Option<DataType>)
        ensures
            final(self)@ == without(old(self)@, name@),
            r == dtype_of(old(self)@, name@),
    {
        proof {
            use_type_invariant(&*self);
            lemma_without_unique(self@, name@);
        }
        let pos = self.position(name);
        match pos {
            Some(i) => {
                let mut fields: Vec<Field> = Vec::new();
                core::mem::swap(&mut fields, &mut self.fields);
                let f = fields.remove(i);
                assert(columns_of(fields@) =~= without(old(self)@, name@));
                self.fields = fields;
                Some(f.dtype)
            },
            None => None,
        }
    }

    /// Puts the column `name` of type `dtype` first; a column that had the
    /// name before is taken out.
    pub fn insert_first(&mut self, name: String, dtype: DataType)
        ensures
            final(self)@ == seq![(name@, dtype)] + without(old(self)@, name@),
    {
        proof {
            use_type_invariant(&*self);
            lemma_without_unique(self@, name@);
        }
        self.remove(name.as_str());
        proof {
            use_type_invariant(&*self);
        }
        let ghost rest = self@;
        let mut fields: Vec<Field> = Vec::new();
        core::mem::swap(&mut fields, &mut self.fields);
        fields.insert(0, Field { name, dtype });
        proof {
            let out = seq![(name@, dtype)] + rest;
            assert(columns_of(fields@) =~= out);
            assert forall|i: int, j: int| 0 <= i < j < out.len() implies out[i].0 != out[j].0 by {
                if i == 0 {
                    assert(out[j] == rest[j - 1]);
                    assert(rest[j - 1].0 != name@);
                } else {
                    assert(out[i] == rest[i - 1]);
                    assert(out[j] == rest[j - 1]);
                }
            }
        }
        self.fields = fields;
    }

    /// The schema that comes of setting each field in turn, first to last:
    /// a name that comes again keeps its first place and takes the later type.
    pub fn from_fields(fields: Vec<Field>) -> (s: Schema)
        ensures
            s@ == merge(Seq::empty(), columns_of(fields@)),
    {
        let mut s = Schema::new();
        let mut i: usize = 0;
        while i < fields.len()
            invariant
                i <= fields.len(),
                s@ == merge(Seq::empty(), columns_of(fields@).take(i as int)),
            decreases fields.len() - i,
        {
            let f = fields[i].clone();
            proof {
                assert(columns_of(fields@).take(i + 1).drop_last() =~= columns_of(fields@).take(i as int));
                assert(columns_of(fields@).take(i + 1).last() == f@);
            }
            s.with_column(f.name, f.dtype);
            i = i + 1;
        }
        assert(columns_of(fields@).take(i as int) =~= columns_of(fields@));
        s
    }

    /// The columns as a vector of fields, in order.
    pub fn to_fields(&self) -> (v: Vec<Field>)
        ensures
            columns_of(v@) == self@,
    {
        let mut v: Vec<Field> = Vec::new();
        let mut i: usize = 0;
        while i < self.fields.len()
            invariant
                i <= self.fields.len(),
                v.len() == i,
                self@.len() == self.fields.len(),
                columns_of(v@) == self@.take(i as int),
            decreases self.fields.len() - i,
        {
            let f = self.fields[i].clone();
            let ghost before = v@;
            v.push(f);
            assert forall|k: int| 0 <= k < i + 1 implies columns_of(v@)[k] == self@[k] by {
                if k < i {
                    assert(v@[k] == before[k]);
                    assert(columns_of(before)[k] == self@.take(i as int)[k]);
                }
            }
            assert(columns_of(v@) =~= self@.take(i + 1));
            i = i + 1;
        }
        assert(self@.take(i as int) =~= self@);
        v
    }
}

impl Clone for Schema {
    fn clone(&self) -> (r: Self)
        ensures
            r@ == self@,
    {
        proof {
            use_type_invariant(self);
        }
        let fields = self.to_fields();
        Schema { fields }
    }
}

impl Default for Schema {
    fn default() -> (s: Self)
        ensures
            s@ == Seq::<(Seq<char>, DataType)>::empty(),
    {
        Schema::new()
    }
}

impl PartialEq for Schema {
    fn eq(&self, other: &Self) -> (r: bool) {
        if self.fields.len() != other.fields.len() {
            return false;
        }
        let mut i: usize = 0;
        while i < self.fields.len()
            invariant
                i <= self.fields.len(),
                self.fields.len() == other.fields.len(),
                self@.take(i as int) == other@.take(i as int),
            decreases self.fields.len() - i,
        {
            let a = &self.fields[i];
            let b = &other.fields[i];
            if !same_text(a.name.as_str(), b.name.as_str()) || a.dtype != b.dtype {
                assert(self@[i as int] != other@[i as int]);
                return false;
            }
            assert(self@.take(i + 1) =~= self@.take(i as int).push(self@[i as int]));
            assert(other@.take(i + 1) =~= other@.take(i as int).push(other@[i as int]));
            i = i + 1;
        }
        assert(self@.take(i as int) =~= self@);
        assert(other@.take(i as int) =~= other@);
        true
    }
}

impl PartialEqSpecImpl for Schema {
    open spec fn obeys_eq_spec() -> bool {
        true
    }

    open spec fn eq_spec(&self, other: &Self) -> bool {
        self@ == other@
    }
}

} // verus!
