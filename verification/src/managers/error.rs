use vstd::prelude::*;
use vstd::string::StringExecFns;

verus! {

/// The kinds of failure that the store, the registry and the hub report.
#[non_exhaustive]
#[allow(non_camel_case_types)]
#[derive(Clone, Copy, Debug, PartialEq, Eq, Structural)]
pub enum ServerError {
    TEST,
    NONE,
    TAKEN,
    MISSING_DATA,
    INVALID_JSON,
    INVALID_DATA,
    INVALID_ARG,
    INVALID_FILE,
    CONNECTION,
    NO_VALUE,
    FAILED_READ,
    FAILED_WRITE,
    INCOMPLETE_OPERATION,
    INCOMPATIBLE_DATA_TYPES,
}

impl ServerError {
    /// The short diagnostic line of each kind.
    pub open spec fn message(self) -> Seq<char> {
        match self {
            ServerError::TEST => "Error: "@,
            ServerError::NONE => "Error: None"@,
            ServerError::TAKEN => "Error: Taken"@,
            ServerError::MISSING_DATA => "Error: Missing Data"@,
            ServerError::INVALID_JSON => "Error: Invalid Json"@,
            ServerError::INVALID_DATA => "Error: Invalid Data"@,
            ServerError::INVALID_ARG => "Error: Invalid Arg"@,
            ServerError::CONNECTION => "Error: Connection"@,
            ServerError::NO_VALUE => "Error: No Value"@,
            ServerError::INVALID_FILE => "Error: Invalid File"@,
            ServerError::FAILED_READ => "Error: Failed to Read"@,
            ServerError::FAILED_WRITE => "Error: Failed to Write"@,
            ServerError::INCOMPLETE_OPERATION => "Error: Incomplete operation"@,
            ServerError::INCOMPATIBLE_DATA_TYPES => "Error: Incompatible data types"@,
        }
    }

    /// The name of each kind, as it is written in the user-facing text.
    pub open spec fn kind_name(self) -> Seq<char> {
        match self {
            ServerError::TEST => "TEST"@,
            ServerError::NONE => "NONE"@,
            ServerError::TAKEN => "TAKEN"@,
            ServerError::MISSING_DATA => "MISSING_DATA"@,
            ServerError::INVALID_JSON => "INVALID_JSON"@,
            ServerError::INVALID_DATA => "INVALID_DATA"@,
            ServerError::INVALID_ARG => "INVALID_ARG"@,
            ServerError::CONNECTION => "CONNECTION"@,
            ServerError::NO_VALUE => "NO_VALUE"@,
            ServerError::INVALID_FILE => "INVALID_FILE"@,
            ServerError::FAILED_READ => "FAILED_READ"@,
            ServerError::FAILED_WRITE => "FAILED_WRITE"@,
            ServerError::INCOMPLETE_OPERATION => "INCOMPLETE_OPERATION"@,
            ServerError::INCOMPATIBLE_DATA_TYPES => "INCOMPATIBLE_DATA_TYPES"@,
        }
    }

    /// The fixed text shown to a client: the same greeting for every error,
    /// followed by the name of the kind and nothing else.
    pub open spec fn user_text(self) -> Seq<char> {
        "Error occured sorry! "@ + self.kind_name()
    }

    /// Returns the diagnostic line of this error.
    pub fn produce_error(&self) -> (r: &'static str)
        ensures
            r@ == self.message(),
    {
        match self {
            ServerError::TEST => "Error: ",
            ServerError::NONE => "Error: None",
            ServerError::TAKEN => "Error: Taken",
            ServerError::MISSING_DATA => "Error: Missing Data",
            ServerError::INVALID_JSON => "Error: Invalid Json",
            ServerError::INVALID_DATA => "Error: Invalid Data",
            ServerError::INVALID_ARG => "Error: Invalid Arg",
            ServerError::CONNECTION => "Error: Connection",
            ServerError::NO_VALUE => "Error: No Value",
            ServerError::INVALID_FILE => "Error: Invalid File",
            ServerError::FAILED_READ => "Error: Failed to Read",
            ServerError::FAILED_WRITE => "Error: Failed to Write",
            ServerError::INCOMPLETE_OPERATION => "Error: Incomplete operation",
            ServerError::INCOMPATIBLE_DATA_TYPES => "Error: Incompatible data types",
        }
    }

    /// Returns the name of this error's kind.
    pub fn name(&self) -> (r: &'static str)
        ensures
            r@ == self.kind_name(),
    {
        match self {
            ServerError::TEST => "TEST",
            ServerError::NONE => "NONE",
            ServerError::TAKEN => "TAKEN",
            ServerError::MISSING_DATA => "MISSING_DATA",
            ServerError::INVALID_JSON => "INVALID_JSON",
            ServerError::INVALID_DATA => "INVALID_DATA",
            ServerError::INVALID_ARG => "INVALID_ARG",
            ServerError::CONNECTION => "CONNECTION",
            ServerError::NO_VALUE => "NO_VALUE",
            ServerError::INVALID_FILE => "INVALID_FILE",
            ServerError::FAILED_READ => "FAILED_READ",
            ServerError::FAILED_WRITE => "FAILED_WRITE",
            ServerError::INCOMPLETE_OPERATION => "INCOMPLETE_OPERATION",
            ServerError::INCOMPATIBLE_DATA_TYPES => "INCOMPATIBLE_DATA_TYPES",
        }
    }

    /// Returns the text that is sent to a client for this error.
    pub fn to_text(&self) -> (r: String)
        ensures
            r@ == self.user_text(),
    {
        String::from_str("Error occured sorry! ").concat(self.name())
    }
}

} // verus!
