use vstd::prelude::*;

verus! {

/// The class of a failure raised while a plan is being built.
#[derive(Clone, Copy, Debug, PartialEq, Eq, Structural)]
pub enum ErrorKind {
    /// A name was looked up in a schema that does not hold it.
    ColumnNotFound,
    /// The same column name was asked for, or would be produced, twice.
    Duplicate,
    /// The data types of an expression's inputs do not fit together.
    SchemaMismatch,
    /// An expression refers to a handle that is not one of its earlier slots.
    InvalidOperation,
}

/// A recoverable failure: its class, the name it is about, and the notes
/// that callers added on the way up, oldest first.
#[derive(Debug)]
pub struct PlanError {
    pub kind: ErrorKind,
    pub subject: String,
    pub context: Vec<String>,
}

impl PlanError {
    /// A failure of class `kind` about `subject`, with no notes yet.
    pub fn new(kind: ErrorKind, subject: String) -> (e: Self)
        ensures
            e.kind == kind,
            e.subject == subject,
            e.context@ == Seq::<String>::empty(),
    {
        PlanError { kind, subject, context: Vec::new() }
    }

    /// The same failure with `note` added as its newest note.
    pub fn context(self, note: String) -> (e: Self)
        ensures
            e.kind == self.kind,
            e.subject == self.subject,
            e.context@ == self.context@.push(note),
    {
        let mut context = self.context;
        context.push(note);
        PlanError { kind: self.kind, subject: self.subject, context }
    }

    /// The class of this failure.
    pub fn kind(&self) -> (k: ErrorKind)
        ensures
            k == self.kind,
    {
        self.kind
    }
}

} // verus!
