use vstd::prelude::*;

verus! {

/// A pet definition that is structurally unusable.
#[derive(Debug, Clone, Copy, PartialEq, Eq, Structural)]
pub enum ObjectFault {
    /// An animation directory holds no frame file.
    NoFrames,
    /// Two animations share one name.
    DuplicateAnimation,
    /// Two states share one name.
    DuplicateState,
    /// The pet's default state names no state.
    UnknownDefaultState,
    /// A state's default animation names no animation.
    UnknownAnimation,
}

/// Why loading a pet failed. Messages of outside failures are kept as text.
#[derive(Debug, Clone, PartialEq, Eq)]
pub enum Error {
    IO(String),
    TomlDeserializer(String),
    Utf8(String),
    InvalidFileName,
    Lua(String),
    InvalidObject(ObjectFault),
}

/// The text of a fault.
pub open spec fn fault_message(f: ObjectFault) -> Seq<char> {
    match f {
        ObjectFault::NoFrames => "Animation contains no frames"@,
        ObjectFault::DuplicateAnimation => "Two animations share a name"@,
        ObjectFault::DuplicateState => "Two states share a name"@,
        ObjectFault::UnknownDefaultState => "The default state does not exist"@,
        ObjectFault::UnknownAnimation => "A state's animation does not exist"@,
    }
}

/// The one-line description of a load failure.
pub open spec fn error_message(e: Error) -> Seq<char> {
    match e {
        Error::IO(m) => "IO Error: "@ + m@,
        Error::TomlDeserializer(m) => "Toml deserialization error: "@ + m@,
        Error::Utf8(m) => "Utf8 conversion error: Not a valid UTF8 string: "@ + m@,
        Error::InvalidFileName => "Invalid file name"@,
        Error::Lua(m) => "Lua error: "@ + m@,
        Error::InvalidObject(f) => "Invalid object: "@ + fault_message(f),
    }
}

/// Relies on String::push_str: appends the characters of `tail`.
#[verifier::external_body]
fn append(head: String, tail: &str) -> (r: String)
    ensures
        r@ == head@ + tail@,
{
    let mut head = head;
    head.push_str(tail);
    head
}

impl ObjectFault {
    /// Describes the fault in words.
    pub fn describe(&self) -> (r: String)
        ensures
            r@ == fault_message(*self),
    {
        match self {
            ObjectFault::NoFrames => "Animation contains no frames".to_owned(),
            ObjectFault::DuplicateAnimation => "Two animations share a name".to_owned(),
            ObjectFault::DuplicateState => "Two states share a name".to_owned(),
            ObjectFault::UnknownDefaultState => "The default state does not exist".to_owned(),
            ObjectFault::UnknownAnimation => "A state's animation does not exist".to_owned(),
        }
    }
}

impl Error {
    /// Describes the failure in one line.
    pub fn describe(&self) -> (r: String)
        ensures
            r@ == error_message(*self),
    {
        match self {
            Error::IO(m) => append("IO Error: ".to_owned(), m.as_str()),
            Error::TomlDeserializer(m) => append("Toml deserialization error: ".to_owned(), m.as_str()),
            Error::Utf8(m) => append(
                "Utf8 conversion error: Not a valid UTF8 string: ".to_owned(),
                m.as_str(),
            ),
            Error::InvalidFileName => "Invalid file name".to_owned(),
            Error::Lua(m) => append("Lua error: ".to_owned(), m.as_str()),
            Error::InvalidObject(f) => {
                let text = f.describe();
                append("Invalid object: ".to_owned(), text.as_str())
            },
        }
    }
}

} // verus!
