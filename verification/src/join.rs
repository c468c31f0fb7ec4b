use vstd::prelude::*;
use vstd::string::StringExecFns;
use crate::dtype::DataType;
use crate::error::ErrorKind;
use crate::error::PlanError;
use crate::expr::ExprIR;
use crate::ir::name_or;
use crate::options::JoinOptionsIR;
use crate::options::JoinType;
use crate::schema::has_column;
use crate::schema::same_text;
use crate::schema::Columns;
use crate::schema::Schema;

verus! {

/// One of the key expressions `keys` produces a column called `name`.
pub open spec fn is_key(keys: Seq<ExprIR>, name: Seq<char>) -> bool {
    exists|i: int| 0 <= i < keys.len() && (#[trigger] keys[i]).output_name.name() == Some(name)
}

/// The columns of `left` followed by those of `right`, one by one. A right
/// column that is a join key is left out where the keys become one. A right
/// column whose name `left` has too gets `suffix` after its name. A name that
/// would then stand twice is a `Duplicate` failure that names it.
pub open spec fn joined(
    left: Columns,
    right: Columns,
    right_keys: Seq<ExprIR>,
    coalesce: bool,
    suffix: Seq<char>,
) -> Result<Columns, (ErrorKind, Seq<char>)>
    decreases right.len(),
{
    if right.len() == 0 {
        Ok(left)
    } else {
        match joined(left, right.drop_last(), right_keys, coalesce, suffix) {
            Err(e) => Err(e),
            Ok(acc) => {
                let c = right.last();
                if coalesce && is_key(right_keys, c.0) {
                    Ok(acc)
                } else {
                    let name = if has_column(left, c.0) {
                        c.0 + suffix
                    } else {
                        c.0
                    };
                    if has_column(acc, name) {
                        Err((ErrorKind::Duplicate, name))
                    } else {
                        Ok(acc.push((name, c.1)))
                    }
                }
            },
        }
    }
}

/// The output columns of a join. Each side must give as many keys as the
/// other. A semi or anti join has the columns of its left input; any other
/// join has those of both, see `joined`.
pub open spec fn join_schema(
    left: Columns,
    right: Columns,
    left_on: Seq<ExprIR>,
    right_on: Seq<ExprIR>,
    options: JoinOptionsIR,
) -> Result<Columns, (ErrorKind, Seq<char>)> {
    if left_on.len() != right_on.len() {
        Err((ErrorKind::InvalidOperation, Seq::empty()))
    } else if options.how is Semi || options.how is Anti {
        Ok(left)
    } else {
        joined(left, right, right_on, options.coalesce, name_or(options.suffix, "_right"@))
    }
}

fn is_key_name(keys: &Vec<ExprIR>, name: &str) -> (b: bool)
    ensures
        b == is_key(keys@, name@),
{
    let mut i: usize = 0;
    while i < keys.len()
        invariant
            i <= keys.len(),
            forall|j: int| 0 <= j < i ==> (#[trigger] keys@[j]).output_name.name() != Some(name@),
        decreases keys.len() - i,
    {
        match keys[i].output_name.get() {
            Some(n) => {
                if same_text(n.as_str(), name) {
                    assert(keys@[i as int].output_name.name() == Some(name@));
                    return true;
                }
            },
            None => {},
        }
        i = i + 1;
    }
    false
}

/// Works out the output schema of a join of `left` and `right`.
pub fn det_join_schema(
    left: &Schema,
    right: &Schema,
    left_on: &Vec<ExprIR>,
    right_on: &Vec<ExprIR>,
    options: &JoinOptionsIR,
) -> (r: Result<Schema, PlanError>)
    ensures
        crate::expr::outcome(r) == join_schema(left@, right@, left_on@, right_on@, *options),
        r matches Err(e) ==> e.context@.len() == 0,
{
    if left_on.len() != right_on.len() {
        return Err(PlanError::new(ErrorKind::InvalidOperation, String::new()));
    }
    match options.how {
        JoinType::Semi | JoinType::Anti => {
            return Ok(left.clone());
        },
        _ => {},
    }
    let suffix = match &options.suffix {
        Some(s) => s.clone(),
        None => "_right".to_owned(),
    };
    let mut acc = left.clone();
    let n: usize = right.len();
    let mut i: usize = 0;
    while i < n
        invariant
            i <= n,
            n == right@.len(),
            left_on@.len() == right_on@.len(),
            !(options.how is Semi || options.how is Anti),
            suffix@ == name_or(options.suffix, "_right"@),
            joined(left@, right@.take(i as int), right_on@, options.coalesce, suffix@) == Ok::<
                _,
                (ErrorKind, Seq<char>),
            >(acc@),
        decreases n - i,
    {
        let f = right.get_at_index(i);
        proof {
            assert(right@.take(i + 1).drop_last() =~= right@.take(i as int));
            assert(right@.take(i + 1).last() == f@);
        }
        if !(options.coalesce && is_key_name(right_on, f.name.as_str())) {
            let name = if left.contains(f.name.as_str()) {
                f.name.clone().concat(suffix.as_str())
            } else {
                f.name.clone()
            };
            if acc.contains(name.as_str()) {
                assert(joined(left@, right@.take(i + 1), right_on@, options.coalesce, suffix@)
                    == Err::<Columns, _>((ErrorKind::Duplicate, name@)));
                assert(right@.take(n as int) =~= right@.take(i + 1) + right@.subrange(
                    i + 1,
                    n as int,
                ));
                proof {
                    lemma_joined_failure_stays(
                        left@,
                        right@.take(i + 1),
                        right@.subrange(i + 1, n as int),
                        right_on@,
                        options.coalesce,
                        suffix@,
                    );
                    assert(right@.take(n as int) =~= right@);
                }
                return Err(PlanError::new(ErrorKind::Duplicate, name));
            }
            acc.with_column(name, f.dtype.clone());
        }
        i = i + 1;
    }
    assert(right@.take(i as int) =~= right@);
    Ok(acc)
}

/// Once a name would stand twice, further right columns do not mend it.
pub proof fn lemma_joined_failure_stays(
    left: Columns,
    right: Columns,
    more: Columns,
    right_keys: Seq<ExprIR>,
    coalesce: bool,
    suffix: Seq<char>,
)
    requires
        joined(left, right, right_keys, coalesce, suffix) is Err,
    ensures
        joined(left, right + more, right_keys, coalesce, suffix) == joined(
            left,
            right,
            right_keys,
            coalesce,
            suffix,
        ),
    decreases more.len(),
{
    if more.len() == 0 {
        assert(right + more =~= right);
    } else {
        assert((right + more).drop_last() =~= right + more.drop_last());
        lemma_joined_failure_stays(left, right, more.drop_last(), right_keys, coalesce, suffix);
    }
}

} // verus!
