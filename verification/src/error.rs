//! Errors that port operations report.
use vstd::prelude::*;
use vstd::string::StringExecFns;

verus! {

/// Errors that can occur during port operations.
#[derive(Debug, Clone, PartialEq, Eq)]
pub enum PortError {
    /// The port has been closed.
    Closed,
    /// The operation timed out.
    Timeout,
    /// An I/O-style error occurred.
    Io(String),
    /// The port's internal buffer or channel is full.
    Full,
    /// The remote end has disconnected.
    Disconnected,
}

impl PortError {
    /// The text that describes an error: fixed for every variant but `Io`, which appends its
    /// own detail.
    pub open spec fn text(self) -> Seq<char> {
        match self {
            PortError::Closed => "port is closed"@,
            PortError::Timeout => "operation timed out"@,
            PortError::Io(detail) => "I/O error: "@ + detail@,
            PortError::Full => "port is full"@,
            PortError::Disconnected => "remote end disconnected"@,
        }
    }

    /// Describes the error for people.
    pub fn to_string(&self) -> (r: String)
        ensures
            r@ == self.text(),
    {
        match self {
            PortError::Closed => String::from_str("port is closed"),
            PortError::Timeout => String::from_str("operation timed out"),
            PortError::Io(detail) => String::from_str("I/O error: ").concat(detail.as_str()),
            PortError::Full => String::from_str("port is full"),
            PortError::Disconnected => String::from_str("remote end disconnected"),
        }
    }
}

/// What is told of an error: a text of its own for each kind, which for an I/O error ends in the
/// detail that the error carries.
pub proof fn law_errors_say_what_happened(error: PortError, r: String)
    requires
        call_ensures(PortError::to_string, (&error,), r),
    ensures
        error is Closed ==> r@ == "port is closed"@,
        error is Timeout ==> r@ == "operation timed out"@,
        error is Full ==> r@ == "port is full"@,
        error is Disconnected ==> r@ == "remote end disconnected"@,
        error matches PortError::Io(detail) ==> r@ == "I/O error: "@ + detail@,
{
}

/// Errors whose texts agree are of the same kind and carry the same detail.
pub proof fn law_errors_are_told_apart(a: PortError, b: PortError, text_a: String, text_b: String)
    requires
        call_ensures(PortError::to_string, (&a,), text_a),
        call_ensures(PortError::to_string, (&b,), text_b),
        text_a@ == text_b@,
    ensures
        a is Closed == b is Closed,
        a is Timeout == b is Timeout,
        a is Full == b is Full,
        a is Disconnected == b is Disconnected,
        a is Io == b is Io,
        a is Io && b is Io ==> a->Io_0@ == b->Io_0@,
{
    reveal_strlit("port is closed");
    reveal_strlit("operation timed out");
    reveal_strlit("port is full");
    reveal_strlit("remote end disconnected");
    reveal_strlit("I/O error: ");
    let prefix = "I/O error: "@;
    assert("port is closed"@.len() == 14 && "port is closed"@[0] == 'p');
    assert("operation timed out"@.len() == 19 && "operation timed out"@[0] == 'o');
    assert("port is full"@.len() == 12 && "port is full"@[0] == 'p');
    assert("remote end disconnected"@.len() == 23 && "remote end disconnected"@[0] == 'r');
    assert(prefix.len() == 11 && prefix[0] == 'I');
    assert(a is Io ==> text_a@[0] == 'I');
    assert(b is Io ==> text_b@[0] == 'I');
    if a is Io && b is Io {
        assert(a->Io_0@ =~= text_a@.skip(prefix.len() as int));
        assert(b->Io_0@ =~= text_b@.skip(prefix.len() as int));
    }
}

} // verus!
