use vstd::prelude::*;

verus! {

/// Every failure the engine itself can report.  Failures of the database
/// connection or of a script execution belong to the gateway that performs
/// them, outside this crate.
#[derive(Debug)]
pub enum MigrationError {
    /// A migration file name does not follow `<date>_<time>_<label>`.
    MalformedFilename { filename: String },
    /// Two migration files carry the same `<date>_<time>` stamp.
    DuplicateTimestamp { first: String, second: String },
    /// The applied history skips declared migrations that sort at or before
    /// the latest applied one; `names` lists them in declared order.
    MissingMigrations { names: Vec<String> },
    /// An `up to` target name does not occur in the declared sequence.
    TargetNotFound { target: String },
}

/// The names of `ns`, separated by a comma and a space.
pub open spec fn comma_joined(ns: Seq<Seq<char>>) -> Seq<char>
    decreases ns.len(),
{
    if ns.len() == 0 {
        Seq::empty()
    } else if ns.len() == 1 {
        ns[0]
    } else {
        comma_joined(ns.drop_last()) + ", "@ + ns.last()
    }
}

/// The exact text `message` renders for each error value.
pub open spec fn spec_message(e: MigrationError) -> Seq<char> {
    match e {
        MigrationError::MalformedFilename { filename } => "cannot parse the migration file name: "@
            + filename@,
        MigrationError::DuplicateTimestamp { first, second } => "duplicate migration timestamp: "@
            + first@ + ", "@ + second@,
        MigrationError::MissingMigrations { names } => "The following migrations have not been applied: "@
            + comma_joined(names@.map_values(|n: String| n@)),
        MigrationError::TargetNotFound { target } => "target migration does not exist: "@
            + target@,
    }
}

impl MigrationError {
    /// Render the error as the one-line text shown to the operator.
    pub fn message(&self) -> (r: String)
        ensures
            r@ == spec_message(*self),
    {
        match self {
            MigrationError::MalformedFilename { filename } => {
                let mut s = String::from_str("cannot parse the migration file name: ");
                s.append(filename.as_str());
                s
            },
            MigrationError::DuplicateTimestamp { first, second } => {
                let mut s = String::from_str("duplicate migration timestamp: ");
                s.append(first.as_str());
                s.append(", ");
                s.append(second.as_str());
                s
            },
            MigrationError::MissingMigrations { names } => {
                let mut s = String::from_str("The following migrations have not been applied: ");
                let mut i: usize = 0;
                while i < names.len()
                    invariant
                        i <= names.len(),
                        s@ == "The following migrations have not been applied: "@ + comma_joined(
                            names@.subrange(0, i as int).map_values(|n: String| n@),
                        ),
                    decreases names.len() - i,
                {
                    if i > 0 {
                        s.append(", ");
                    }
                    s.append(names[i].as_str());
                    proof {
                        let view_of = |n: String| n@;
                        let pre = names@.subrange(0, i as int).map_values(view_of);
                        let post = names@.subrange(0, i + 1 as int).map_values(view_of);
                        assert(post.drop_last() =~= pre);
                        assert(post.last() == names@[i as int]@);
                        if i == 0 {
                            assert(post =~= seq![names@[0]@]);
                        }
                    }
                    i = i + 1;
                }
                proof {
                    assert(names@.subrange(0, names@.len() as int) =~= names@);
                }
                s
            },
            MigrationError::TargetNotFound { target } => {
                let mut s = String::from_str("target migration does not exist: ");
                s.append(target.as_str());
                s
            },
        }
    }
}

} // verus!
