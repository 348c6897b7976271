//! Where each column of an output schema comes from when computed columns are
//! added to blocks of an input schema.
use vstd::prelude::*;

verus! {

/// A field of the output schema: its name, and the text of its stored
/// computed expression where it is a stored computed column.
pub struct OutputField {
    pub name: String,
    pub stored_expr: Option<String>,
}

/// Where an output column comes from.
#[derive(Debug, PartialEq, Eq)]
pub enum ColumnSource {
    /// The input column at this position.
    Input(usize),
    /// The value of this stored computed expression.
    Computed(String),
}

/// Why no plan could be made.
#[derive(Clone, Copy, Debug, PartialEq, Eq, Structural)]
pub enum ComputedColumnsError {
    /// A field missing from the input is not a stored computed column.
    MissedFieldNotComputed,
}

/// Whether `j` is the first position of `name` among the input names.
pub open spec fn first_position(names: Seq<String>, name: Seq<char>, j: int) -> bool {
    0 <= j < names.len() && names[j]@ == name && forall|x: int| 0 <= x < j ==> names[x]@ != name
}

/// Whether some input column is named `name`.
pub open spec fn has_name(names: Seq<String>, name: Seq<char>) -> bool {
    exists|j: int| 0 <= j < names.len() && #[trigger] names[j]@ == name
}

/// Whether an output field can be produced: it is an input column, or a
/// stored computed column.
pub open spec fn producible(names: Seq<String>, f: OutputField) -> bool {
    has_name(names, f.name@) || f.stored_expr is Some
}

/// Whether `src` is the source of output field `f`: the first input column of
/// its name where there is one, else its stored expression.
pub open spec fn is_source_of(names: Seq<String>, f: OutputField, src: ColumnSource) -> bool {
    if has_name(names, f.name@) {
        src matches ColumnSource::Input(j) && first_position(names, f.name@, j as int)
    } else {
        src matches ColumnSource::Computed(e) && f.stored_expr matches Some(s) && e@ == s@
    }
}

fn position_of(names: &Vec<String>, name: &String) -> (r: Option<usize>)
    ensures
        match r {
            Some(j) => first_position(names@, name@, j as int),
            None => !has_name(names@, name@),
        },
{
    let mut j: usize = 0;
    while j < names.len()
        invariant
            j <= names@.len(),
            forall|x: int| 0 <= x < j ==> names@[x]@ != name@,
        decreases names@.len() - j,
    {
        if names[j] == *name {
            return Some(j);
        }
        j += 1;
    }
    None
}

/// For each output field in order, where its column comes from: the input
/// column of the same name (the first, where several share it), or else its
/// stored computed expression. Fails exactly when some field is neither.
pub fn plan_output_columns(input_names: &Vec<String>, output: &Vec<OutputField>) -> (r: Result<
    Vec<ColumnSource>,
    ComputedColumnsError,
>)
    ensures
        r is Ok <==> forall|i: int| 0 <= i < output@.len() ==> producible(input_names@, #[trigger] output@[i]),
        r matches Ok(v) ==> v@.len() == output@.len() && forall|i: int|
            0 <= i < output@.len() ==> is_source_of(input_names@, #[trigger] output@[i], v@[i]),
{
    let mut plan: Vec<ColumnSource> = Vec::new();
    let mut i: usize = 0;
    while i < output.len()
        invariant
            i <= output@.len(),
            plan@.len() == i,
            forall|x: int| 0 <= x < i ==> producible(input_names@, #[trigger] output@[x]),
            forall|x: int| 0 <= x < i ==> is_source_of(input_names@, #[trigger] output@[x], plan@[x]),
        decreases output@.len() - i,
    {
        let f = &output[i];
        match position_of(input_names, &f.name) {
            Some(j) => {
                plan.push(ColumnSource::Input(j));
            },
            None => match &f.stored_expr {
                Some(e) => {
                    plan.push(ColumnSource::Computed(e.clone()));
                },
                None => {
                    return Err(ComputedColumnsError::MissedFieldNotComputed);
                },
            },
        }
        i += 1;
    }
    Ok(plan)
}

} // verus!
