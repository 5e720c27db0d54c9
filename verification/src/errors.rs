use vstd::prelude::*;
use vstd::string::*;

verus! {

/// Everything that can go wrong while loading a roverfile, resolving
/// requested dataset names, or fetching datasets.
#[derive(Debug)]
pub enum RoverError {
    /// The roverfile, or the directory it should live in, could not be found.
    NotFound,
    /// The roverfile's content does not have the expected shape.
    ParseError,
    /// One or more requested dataset names are absent from the roverfile.
    /// Carries every offending name, in request order.
    UnknownDatasets(Vec<String>),
    /// A transport-level failure or a non-success response during a fetch.
    NetworkError,
    /// A local filesystem failure while writing a destination file.
    IOError,
}

/// The text of the diagnostic for a list of unknown dataset names:
/// every offending name in order, each followed by a single space.
pub open spec fn unknown_names_text(names: Seq<Seq<char>>) -> Seq<char>
    decreases names.len(),
{
    if names.len() == 0 {
        Seq::<char>::empty()
    } else {
        unknown_names_text(names.drop_last()) + names.last() + " "@
    }
}

impl RoverError {
    /// The human-readable message for this error, as a single line.
    pub open spec fn spec_message(&self) -> Seq<char> {
        match self {
            RoverError::NotFound => "could not find roverfile"@,
            RoverError::ParseError => "could not parse roverfile"@,
            RoverError::UnknownDatasets(names) => "Unknown dataset(s) encountered: "@
                + unknown_names_text(names.deep_view()),
            RoverError::NetworkError => "could not retrieve dataset"@,
            RoverError::IOError => "could not write dataset to disk"@,
        }
    }

    /// Render the error as a human-readable message.
    pub fn message(&self) -> (r: String)
        ensures
            r@ == self.spec_message(),
    {
        match self {
            RoverError::NotFound => "could not find roverfile".to_owned(),
            RoverError::ParseError => "could not parse roverfile".to_owned(),
            RoverError::UnknownDatasets(names) => {
                let mut r = "Unknown dataset(s) encountered: ".to_owned();
                let ghost prefix = r@;
                let mut i: usize = 0;
                while i < names.len()
                    invariant
                        i <= names.len(),
                        r@ == prefix + unknown_names_text(names.deep_view().take(i as int)),
                    decreases names.len() - i,
                {
                    proof {
                        assert(names.deep_view().take(i as int + 1).drop_last()
                            =~= names.deep_view().take(i as int));
                        assert(names.deep_view().take(i as int + 1).last() == names[i as int]@);
                    }
                    r.append(names[i].as_str());
                    r.append(" ");
                    i = i + 1;
                }
                proof {
                    assert(names.deep_view().take(names.len() as int) =~= names.deep_view());
                }
                r
            },
            RoverError::NetworkError => "could not retrieve dataset".to_owned(),
            RoverError::IOError => "could not write dataset to disk".to_owned(),
        }
    }
}

} // verus!
