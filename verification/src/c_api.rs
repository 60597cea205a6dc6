//! Versioned function-table ABI over opaque logical handles: its numbers and
//! decisions.
use vstd::prelude::*;
use crate::buffer::{DType, BUFFER_C_CONTIGUOUS, BUFFER_WRITABLE, ELEMENT_BYTES};
use crate::calls::refuses;
use crate::diagnostic::{fault, fault_text, Diagnostic, Fault, Result};
use crate::format::Piece;
use crate::handles::{held, resolved_as, Handle, HandleKind, PersistentHandle};
use crate::native::{same_handles, Context, ValueKind};
use crate::native::resources::{exportable, owner_handed};
use crate::runtime_owner::{OwnerView, RuntimeOwner};
use crate::text::{decimal, decimal_u64, join3};
use crate::value::Value;

verus! {

pub const TONIC_ABI_VERSION: u32 = 1;

#[derive(Clone, Copy, Debug, PartialEq, Eq, Structural)]
pub struct TonicStatus(pub u32);

impl TonicStatus {
    #[verifier::allow_in_spec]
    pub fn ok() -> TonicStatus
        returns
            TonicStatus(0u32),
    {
        TonicStatus(0)
    }

    #[verifier::allow_in_spec]
    pub fn exception() -> TonicStatus
        returns
            TonicStatus(1u32),
    {
        TonicStatus(1)
    }

    #[verifier::allow_in_spec]
    pub fn invalid_argument() -> TonicStatus
        returns
            TonicStatus(2u32),
    {
        TonicStatus(2)
    }

    #[verifier::allow_in_spec]
    pub fn abi_mismatch() -> TonicStatus
        returns
            TonicStatus(3u32),
    {
        TonicStatus(3)
    }

    #[verifier::allow_in_spec]
    pub fn unsupported() -> TonicStatus
        returns
            TonicStatus(4u32),
    {
        TonicStatus(4)
    }

    #[verifier::allow_in_spec]
    pub fn panic() -> TonicStatus
        returns
            TonicStatus(5u32),
    {
        TonicStatus(5)
    }

    pub open spec fn code(self) -> u32 {
        self.0
    }

    pub fn from_number(code: u32) -> (r: TonicStatus)
        ensures
            r.code() == code,
    {
        TonicStatus(code)
    }

    pub fn number(self) -> (r: u32)
        ensures
            r == self.code(),
    {
        self.0
    }
}


/// What a value is, as a number.
#[derive(Clone, Copy, Debug, PartialEq, Eq, Structural)]
pub struct TonicValueKind(pub u32);

impl TonicValueKind {
    #[verifier::allow_in_spec]
    pub fn nothing() -> TonicValueKind
        returns
            TonicValueKind(1u32),
    {
        TonicValueKind(1)
    }

    #[verifier::allow_in_spec]
    pub fn boolean() -> TonicValueKind
        returns
            TonicValueKind(2u32),
    {
        TonicValueKind(2)
    }

    #[verifier::allow_in_spec]
    pub fn integer() -> TonicValueKind
        returns
            TonicValueKind(3u32),
    {
        TonicValueKind(3)
    }

    #[verifier::allow_in_spec]
    pub fn float() -> TonicValueKind
        returns
            TonicValueKind(4u32),
    {
        TonicValueKind(4)
    }

    #[verifier::allow_in_spec]
    pub fn string() -> TonicValueKind
        returns
            TonicValueKind(5u32),
    {
        TonicValueKind(5)
    }

    #[verifier::allow_in_spec]
    pub fn foreign() -> TonicValueKind
        returns
            TonicValueKind(6u32),
    {
        TonicValueKind(6)
    }

    #[verifier::allow_in_spec]
    pub fn list() -> TonicValueKind
        returns
            TonicValueKind(7u32),
    {
        TonicValueKind(7)
    }

    #[verifier::allow_in_spec]
    pub fn tuple() -> TonicValueKind
        returns
            TonicValueKind(8u32),
    {
        TonicValueKind(8)
    }

    #[verifier::allow_in_spec]
    pub fn dict() -> TonicValueKind
        returns
            TonicValueKind(9u32),
    {
        TonicValueKind(9)
    }

    #[verifier::allow_in_spec]
    pub fn other() -> TonicValueKind
        returns
            TonicValueKind(255u32),
    {
        TonicValueKind(255)
    }
}

/// An exception that native code raises, as a number.
#[derive(Clone, Copy, Debug, PartialEq, Eq, Structural)]
pub struct TonicExceptionKind(pub u32);

impl TonicExceptionKind {
    #[verifier::allow_in_spec]
    pub fn runtime_error() -> TonicExceptionKind
        returns
            TonicExceptionKind(1u32),
    {
        TonicExceptionKind(1)
    }

    #[verifier::allow_in_spec]
    pub fn type_error() -> TonicExceptionKind
        returns
            TonicExceptionKind(2u32),
    {
        TonicExceptionKind(2)
    }

    #[verifier::allow_in_spec]
    pub fn value_error() -> TonicExceptionKind
        returns
            TonicExceptionKind(3u32),
    {
        TonicExceptionKind(3)
    }

    #[verifier::allow_in_spec]
    pub fn overflow_error() -> TonicExceptionKind
        returns
            TonicExceptionKind(4u32),
    {
        TonicExceptionKind(4)
    }

    #[verifier::allow_in_spec]
    pub fn handle_error() -> TonicExceptionKind
        returns
            TonicExceptionKind(5u32),
    {
        TonicExceptionKind(5)
    }

    #[verifier::allow_in_spec]
    pub fn python_error() -> TonicExceptionKind
        returns
            TonicExceptionKind(6u32),
    {
        TonicExceptionKind(6)
    }
}

/// A capability of the function table, as a number.
#[derive(Clone, Copy, Debug, PartialEq, Eq, Structural)]
pub struct TonicCapability(pub u32);

impl TonicCapability {
    #[verifier::allow_in_spec]
    pub fn core_table() -> TonicCapability
        returns
            TonicCapability(1u32),
    {
        TonicCapability(1)
    }

    #[verifier::allow_in_spec]
    pub fn explicit_exception_status() -> TonicCapability
        returns
            TonicCapability(2u32),
    {
        TonicCapability(2)
    }

    #[verifier::allow_in_spec]
    pub fn scoped_local_handles() -> TonicCapability
        returns
            TonicCapability(3u32),
    {
        TonicCapability(3)
    }

    #[verifier::allow_in_spec]
    pub fn panic_guard() -> TonicCapability
        returns
            TonicCapability(4u32),
    {
        TonicCapability(4)
    }

    #[verifier::allow_in_spec]
    pub fn buffer_v1() -> TonicCapability
        returns
            TonicCapability(5u32),
    {
        TonicCapability(5)
    }

    #[verifier::allow_in_spec]
    pub fn foreign_object_v1() -> TonicCapability
        returns
            TonicCapability(6u32),
    {
        TonicCapability(6)
    }

    #[verifier::allow_in_spec]
    pub fn persistent_handles_v1() -> TonicCapability
        returns
            TonicCapability(7u32),
    {
        TonicCapability(7)
    }

    #[verifier::allow_in_spec]
    pub fn runtime_owner_v1() -> TonicCapability
        returns
            TonicCapability(8u32),
    {
        TonicCapability(8)
    }

    #[verifier::allow_in_spec]
    pub fn container_access_v1() -> TonicCapability
        returns
            TonicCapability(9u32),
    {
        TonicCapability(9)
    }

    #[verifier::allow_in_spec]
    pub fn protocol_access_v1() -> TonicCapability
        returns
            TonicCapability(10u32),
    {
        TonicCapability(10)
    }

    #[verifier::allow_in_spec]
    pub fn cross_collector_v1() -> TonicCapability
        returns
            TonicCapability(11u32),
    {
        TonicCapability(11)
    }
}

pub const CAP_CORE: u64 = 0x1;

pub const CAP_EXPLICIT_EXCEPTION_STATUS: u64 = 0x2;

pub const CAP_SCOPED_LOCAL_HANDLES: u64 = 0x4;

pub const CAP_PANIC_GUARD: u64 = 0x8;

pub const CAP_BUFFER_V1: u64 = 0x10;

pub const CAP_FOREIGN_OBJECT_V1: u64 = 0x20;

pub const CAP_PERSISTENT_HANDLES_V1: u64 = 0x40;

pub const CAP_RUNTIME_OWNER_V1: u64 = 0x80;

pub const CAP_CONTAINER_ACCESS_V1: u64 = 0x100;

pub const CAP_PROTOCOL_ACCESS_V1: u64 = 0x200;

pub const CAP_CROSS_COLLECTOR_V1: u64 = 0x400;

/// Every capability bit.
pub const TONIC_CAPABILITIES: u64 = 0x7ff;

/// The size of the function table: its header and fifty pointers.
pub const TONIC_API_SIZE: u32 = 416;

/// The size of a buffer descriptor.
pub const TONIC_BUFFER_SIZE: u32 = 72;

/// A handle as native code holds it.
#[derive(Clone, Copy, Debug, PartialEq, Eq, Structural)]
pub struct TonicHandle(pub u64);

impl TonicHandle {
    pub fn from_internal(handle: Handle) -> (r: TonicHandle)
        ensures
            r.0 == handle.word(),
    {
        TonicHandle(handle.raw())
    }

    pub fn into_internal(self) -> (r: Handle)
        ensures
            r == Handle::of(self.0),
            r.word() == self.0,
    {
        Handle::from_raw(self.0)
    }
}

/// A persistent handle as native code holds it.
#[derive(Clone, Copy, Debug, PartialEq, Eq, Structural)]
pub struct TonicPersistentHandle(pub u64);

impl TonicPersistentHandle {
    pub fn from_internal(handle: &PersistentHandle) -> (r: TonicPersistentHandle)
        ensures
            r.0 == handle.handle().word(),
    {
        TonicPersistentHandle(handle.raw())
    }

    pub fn into_internal(self) -> (r: PersistentHandle)
        ensures
            r.handle() == Handle::of(self.0),
            r.handle().word() == self.0,
    {
        PersistentHandle::from_raw(self.0)
    }
}

/// What a native call is made with: the context while the call is live, and
/// the exception that is set.
#[derive(Debug)]
pub struct TonicContext {
    pub live: bool,
    pub context: Context,
    pub exception: Option<Diagnostic>,
}

/// The identity of a runtime for delayed native work.
#[derive(Debug)]
pub struct TonicRuntimeOwner {
    pub owner: RuntimeOwner,
}

/// What the header of the function table says.
#[derive(Clone, Copy, Debug, PartialEq, Eq, Structural)]
pub struct TonicApi {
    pub struct_size: u32,
    pub abi_version: u32,
    pub capabilities: u64,
}

/// The table that this runtime offers.
#[verifier::allow_in_spec]
pub fn api() -> TonicApi
    returns
        (TonicApi {
            struct_size: TONIC_API_SIZE,
            abi_version: TONIC_ABI_VERSION,
            capabilities: TONIC_CAPABILITIES,
        }),
{
    TonicApi {
        struct_size: TONIC_API_SIZE,
        abi_version: TONIC_ABI_VERSION,
        capabilities: TONIC_CAPABILITIES,
    }
}

/// The descriptor of an exported buffer. Storage, shape and strides are
/// addresses that the embedder fills in.
#[derive(Clone, Copy, Debug, PartialEq, Eq, Structural)]
pub struct TonicBuffer {
    pub struct_size: u32,
    pub dtype: DType,
    pub flags: u64,
    pub data: usize,
    pub byte_len: usize,
    pub item_size: usize,
    pub ndim: u32,
    pub reserved: u32,
    pub shape: usize,
    pub strides: usize,
    pub owner: TonicHandle,
}

/// How an operation of the table fails.
#[derive(Debug)]
pub enum BoundaryError {
    Diagnostic(Diagnostic),
    InvalidArgument(&'static str),
    Unsupported(&'static str),
}

/// See [`BoundaryError`].
#[verifier::ext_equal]
pub enum BoundaryFault {
    Diagnostic(Fault),
    InvalidArgument(Seq<char>),
    Unsupported(Seq<char>),
}

impl View for BoundaryError {
    type V = BoundaryFault;

    open spec fn view(&self) -> BoundaryFault {
        match self {
            BoundaryError::Diagnostic(error) => BoundaryFault::Diagnostic(error@),
            BoundaryError::InvalidArgument(text) => BoundaryFault::InvalidArgument(text@),
            BoundaryError::Unsupported(text) => BoundaryFault::Unsupported(text@),
        }
    }
}

/// How an operation of the table ended.
#[derive(Debug)]
pub enum BoundaryEnd {
    Returned,
    Failed(BoundaryError),
    Panicked,
}

/// Whether an operation failed so.
pub open spec fn rejects<T>(
    result: core::result::Result<T, BoundaryError>,
    error: BoundaryFault,
) -> bool {
    result matches Err(found) && found@ == error
}

pub open spec fn invalid_argument(text: &str) -> BoundaryFault {
    BoundaryFault::InvalidArgument(text@)
}

pub open spec fn unsupported(text: &str) -> BoundaryFault {
    BoundaryFault::Unsupported(text@)
}

/// The exception that an end leaves set, given the one that was set.
pub open spec fn exception_after(end: BoundaryEnd, held: Option<Diagnostic>) -> Option<Fault> {
    match end {
        BoundaryEnd::Returned => match held {
            Some(error) => Some(error@),
            None => None,
        },
        BoundaryEnd::Failed(BoundaryError::Diagnostic(error)) => Some(error@),
        BoundaryEnd::Failed(BoundaryError::InvalidArgument(text)) => Some(
            fault("NativeApiError", text),
        ),
        BoundaryEnd::Failed(BoundaryError::Unsupported(text)) => Some(
            fault("NativeApiError", text),
        ),
        BoundaryEnd::Panicked => Some(
            fault("RuntimeError", "panic was contained at the Tonic C ABI boundary"),
        ),
    }
}

/// The status that an end is reported with.
pub open spec fn status_of(end: BoundaryEnd) -> TonicStatus {
    match end {
        BoundaryEnd::Returned => TonicStatus::ok(),
        BoundaryEnd::Failed(BoundaryError::Diagnostic(_)) => TonicStatus::exception(),
        BoundaryEnd::Failed(BoundaryError::InvalidArgument(_)) => TonicStatus::invalid_argument(),
        BoundaryEnd::Failed(BoundaryError::Unsupported(_)) => TonicStatus::unsupported(),
        BoundaryEnd::Panicked => TonicStatus::panic(),
    }
}

/// An exception as it is spoken of.
pub open spec fn exception_view(exception: Option<Diagnostic>) -> Option<Fault> {
    match exception {
        Some(error) => Some(error@),
        None => None,
    }
}

/// The exception class of a number.
pub open spec fn exception_class(kind: TonicExceptionKind) -> Option<&'static str> {
    match kind.0 {
        1 => Some("RuntimeError"),
        2 => Some("TypeError"),
        3 => Some("ValueError"),
        4 => Some("OverflowError"),
        5 => Some("HandleError"),
        6 => Some("PythonError"),
        _ => None,
    }
}

/// See [`exception_class`].
pub fn exception_name(kind: TonicExceptionKind) -> (r: Option<&'static str>)
    ensures
        r == exception_class(kind),
{
    match kind.0 {
        1 => Some("RuntimeError"),
        2 => Some("TypeError"),
        3 => Some("ValueError"),
        4 => Some("OverflowError"),
        5 => Some("HandleError"),
        6 => Some("PythonError"),
        _ => None,
    }
}

/// The number of a kind of value.
pub open spec fn kind_number(kind: ValueKind) -> TonicValueKind {
    match kind {
        ValueKind::Nothing => TonicValueKind::nothing(),
        ValueKind::Bool => TonicValueKind::boolean(),
        ValueKind::Int => TonicValueKind::integer(),
        ValueKind::Float => TonicValueKind::float(),
        ValueKind::Str => TonicValueKind::string(),
        ValueKind::Foreign => TonicValueKind::foreign(),
        ValueKind::List => TonicValueKind::list(),
        ValueKind::Tuple => TonicValueKind::tuple(),
        ValueKind::Dict => TonicValueKind::dict(),
        ValueKind::Other => TonicValueKind::other(),
    }
}

/// See [`kind_number`].
pub fn number_of_kind(kind: ValueKind) -> (r: TonicValueKind)
    ensures
        r == kind_number(kind),
{
    match kind {
        ValueKind::Nothing => TonicValueKind::nothing(),
        ValueKind::Bool => TonicValueKind::boolean(),
        ValueKind::Int => TonicValueKind::integer(),
        ValueKind::Float => TonicValueKind::float(),
        ValueKind::Str => TonicValueKind::string(),
        ValueKind::Foreign => TonicValueKind::foreign(),
        ValueKind::List => TonicValueKind::list(),
        ValueKind::Tuple => TonicValueKind::tuple(),
        ValueKind::Dict => TonicValueKind::dict(),
        ValueKind::Other => TonicValueKind::other(),
    }
}

/// Refuses an output that is not there.
pub fn require_out(present: bool) -> (r: core::result::Result<(), BoundaryError>)
    ensures
        if present {
            r is Ok
        } else {
            rejects(r, invalid_argument("null output pointer"))
        },
{
    if present {
        Ok(())
    } else {
        Err(BoundaryError::InvalidArgument("null output pointer"))
    }
}

/// Refuses items that are counted but not there.
pub fn require_items(present: bool, count: usize, message: &'static str) -> (r: core::result::Result<
    (),
    BoundaryError,
>)
    ensures
        if count != 0 && !present {
            rejects(r, invalid_argument(message))
        } else {
            r is Ok
        },
{
    if count != 0 && !present {
        Err(BoundaryError::InvalidArgument(message))
    } else {
        Ok(())
    }
}

/// Whether a text of a length is to be copied out; a query for the length
/// alone copies nothing.
pub fn write_text(len: usize, output: bool, capacity: usize) -> (r: core::result::Result<
    bool,
    BoundaryError,
>)
    ensures
        if !output && capacity == 0 {
            r matches Ok(copies) && !copies
        } else if capacity < len {
            rejects(r, invalid_argument("exception text buffer is too small"))
        } else if len != 0 && !output {
            rejects(r, invalid_argument("null exception text buffer"))
        } else {
            r matches Ok(copies) && copies == (len != 0)
        },
{
    if !output && capacity == 0 {
        return Ok(false);
    }
    if capacity < len {
        return Err(BoundaryError::InvalidArgument("exception text buffer is too small"));
    }
    if len != 0 && !output {
        return Err(BoundaryError::InvalidArgument("null exception text buffer"));
    }
    Ok(len != 0)
}

/// The version of a capability that is offered, if it is late enough.
pub fn query_capability(capability: TonicCapability, minimum_version: u32) -> (r: core::result::Result<
    u32,
    BoundaryError,
>)
    ensures
        if !(1 <= capability.0 <= 11) {
            rejects(r, unsupported("capability is not supported"))
        } else if minimum_version > 1 {
            rejects(r, unsupported("capability version is not supported"))
        } else {
            r matches Ok(version) && version == 1
        },
{
    if capability.0 < 1 || capability.0 > 11 {
        return Err(BoundaryError::Unsupported("capability is not supported"));
    }
    if minimum_version > 1 {
        return Err(BoundaryError::Unsupported("capability version is not supported"));
    }
    Ok(1)
}

/// The truth value that a number stands for.
pub fn bool_input(value: u32) -> (r: core::result::Result<bool, BoundaryError>)
    ensures
        if value > 1 {
            rejects(r, invalid_argument("bool input must be zero or one"))
        } else {
            r matches Ok(b) && b == (value == 1)
        },
{
    if value > 1 {
        return Err(BoundaryError::InvalidArgument("bool input must be zero or one"));
    }
    Ok(value != 0)
}

/// Hexadecimal digits without leading zeros.
pub open spec fn hexadecimal(n: nat) -> Seq<char>
    decreases n,
{
    if n < 16 {
        seq![crate::format::hex_digit(n as int)]
    } else {
        hexadecimal(n / 16).push(crate::format::hex_digit((n % 16) as int))
    }
}

fn hexadecimal_u64(n: u64) -> (r: String)
    ensures
        r@ == hexadecimal(n as nat),
    decreases n,
{
    let digit = crate::format::hexadecimal((n % 16) as u32);
    let mut text = if n < 16 {
        let text = "".to_owned();
        proof {
            reveal_strlit("");
        }
        assert(text@ =~= Seq::<char>::empty());
        text
    } else {
        hexadecimal_u64(n / 16)
    };
    text.push(digit);
    assert(text@ =~= hexadecimal(n as nat));
    text
}

/// What is wrong with a request for the table.
pub open spec fn negotiation_fault(version: u32, size: u32, required: u64) -> Option<Fault> {
    if version != TONIC_ABI_VERSION {
        Some(
            fault_text(
                "NativeAbiError",
                "native ABI "@ + decimal(version as int) + " is incompatible with ABI "@ + decimal(
                    TONIC_ABI_VERSION as int,
                ),
            ),
        )
    } else if size > TONIC_API_SIZE {
        Some(
            fault(
                "NativeAbiError",
                "native API function table is smaller than the extension requires",
            ),
        )
    } else if required & !TONIC_CAPABILITIES != 0 {
        Some(
            fault_text(
                "NativeAbiError",
                "native API lacks required capability bits 0x"@ + hexadecimal(
                    (required & !TONIC_CAPABILITIES) as nat,
                ),
            ),
        )
    } else {
        None
    }
}

/// The table, if it is what an extension asks for.
pub fn negotiate_api(version: u32, size: u32, required: u64) -> (r: Result<TonicApi>)
    ensures
        match negotiation_fault(version, size, required) {
            Some(error) => refuses(r, error),
            None => r matches Ok(table) && table == api(),
        },
{
    if version != TONIC_ABI_VERSION {
        let asked = decimal_u64(version as u64);
        let offered = decimal_u64(TONIC_ABI_VERSION as u64);
        let mut text = join3("native ABI ", asked.as_str(), " is incompatible with ABI ");
        text.append(offered.as_str());
        return Err(Diagnostic::with_text("NativeAbiError", text));
    }
    if size > TONIC_API_SIZE {
        return Err(
            Diagnostic::new(
                "NativeAbiError",
                "native API function table is smaller than the extension requires",
            ),
        );
    }
    let missing = required & !TONIC_CAPABILITIES;
    if missing != 0 {
        let bits = hexadecimal_u64(missing);
        let mut text = "native API lacks required capability bits 0x".to_owned();
        text.append(bits.as_str());
        return Err(Diagnostic::with_text("NativeAbiError", text));
    }
    Ok(api())
}

/// The status that a request for the table is answered with; only the first
/// one comes with the table.
pub fn lookup_status(output: bool, version: u32, size: u32, required: u64) -> (r: TonicStatus)
    ensures
        r == if !output {
            TonicStatus::invalid_argument()
        } else if version != TONIC_ABI_VERSION || size > TONIC_API_SIZE {
            TonicStatus::abi_mismatch()
        } else if required & !TONIC_CAPABILITIES != 0 {
            TonicStatus::unsupported()
        } else {
            TonicStatus::ok()
        },
        r == TonicStatus::ok() <==> output && negotiation_fault(version, size, required) is None,
{
    if !output {
        return TonicStatus::invalid_argument();
    }
    match negotiate_api(version, size, required) {
        Ok(_) => TonicStatus::ok(),
        Err(_) => if version == TONIC_ABI_VERSION && size <= TONIC_API_SIZE {
            TonicStatus::unsupported()
        } else {
            TonicStatus::abi_mismatch()
        },
    }
}

impl TonicRuntimeOwner {
    /// Queues the release of a persistent handle.
    pub fn persistent_release_deferred(&mut self, handle: TonicPersistentHandle) -> (r: TonicStatus)
        ensures
            if old(self).owner@.alive {
                r == TonicStatus::ok() && final(self).owner@ == (OwnerView {
                    persistent: old(self).owner@.persistent.push(handle.0),
                    ..old(self).owner@
                })
            } else {
                r == TonicStatus::unsupported() && final(self).owner@ == old(self).owner@
            },
    {
        if self.owner.queue_persistent_release(handle.0) {
            TonicStatus::ok()
        } else {
            TonicStatus::unsupported()
        }
    }

    /// Queues the release of a foreign reference.
    pub fn foreign_reference_release_deferred(&mut self, handle: TonicHandle) -> (r: TonicStatus)
        ensures
            if old(self).owner@.alive {
                r == TonicStatus::ok() && final(self).owner@ == (OwnerView {
                    foreign: old(self).owner@.foreign.push(handle.0),
                    ..old(self).owner@
                })
            } else {
                r == TonicStatus::unsupported() && final(self).owner@ == old(self).owner@
            },
    {
        if self.owner.queue_foreign_reference_release(handle.0) {
            TonicStatus::ok()
        } else {
            TonicStatus::unsupported()
        }
    }
}

impl TonicContext {
    pub fn new(context: Context) -> (r: TonicContext)
        ensures
            r.live,
            r.context == context,
            r.exception is None,
    {
        TonicContext { live: true, context, exception: None }
    }

    /// Begins an operation of the table; a context whose call is over has none.
    pub fn enter(&mut self, clear: bool) -> (r: Option<TonicStatus>)
        ensures
            final(self).live == old(self).live,
            final(self).context == old(self).context,
            if !old(self).live {
                r == Some(TonicStatus::invalid_argument()) && final(self).exception == old(
                    self,
                ).exception
            } else {
                r is None && final(self).exception == if clear {
                    None
                } else {
                    old(self).exception
                }
            },
    {
        if !self.live {
            return Some(TonicStatus::invalid_argument());
        }
        if clear {
            self.exception = None;
        }
        None
    }

    /// Ends an operation: failures and panics are kept as the exception.
    pub fn settle(&mut self, end: BoundaryEnd) -> (r: TonicStatus)
        ensures
            r == status_of(end),
            exception_view(final(self).exception) == exception_after(end, old(self).exception),
            final(self).live == old(self).live,
            final(self).context == old(self).context,
    {
        match end {
            BoundaryEnd::Returned => TonicStatus::ok(),
            BoundaryEnd::Failed(BoundaryError::Diagnostic(error)) => {
                self.exception = Some(error);
                TonicStatus::exception()
            },
            BoundaryEnd::Failed(BoundaryError::InvalidArgument(text)) => {
                self.exception = Some(Diagnostic::new("NativeApiError", text));
                TonicStatus::invalid_argument()
            },
            BoundaryEnd::Failed(BoundaryError::Unsupported(text)) => {
                self.exception = Some(Diagnostic::new("NativeApiError", text));
                TonicStatus::unsupported()
            },
            BoundaryEnd::Panicked => {
                self.exception = Some(
                    Diagnostic::new(
                        "RuntimeError",
                        "panic was contained at the Tonic C ABI boundary",
                    ),
                );
                TonicStatus::panic()
            },
        }
    }

    /// The class of the exception that is set, empty where none is.
    pub fn exception_kind(&self) -> (r: &str)
        ensures
            r@ == match self.exception {
                Some(error) => error.kind@,
                None => ""@,
            },
    {
        match &self.exception {
            Some(error) => error.kind,
            None => "",
        }
    }

    /// The text of the exception that is set, in pieces; none where none is.
    pub fn exception_text(&self) -> (r: Vec<Piece>)
        ensures
            r@ == match self.exception {
                Some(error) => error@.text(),
                None => Seq::empty(),
            },
    {
        match &self.exception {
            Some(error) => error.text(),
            None => Vec::new(),
        }
    }

    /// The message of the exception that is set, empty where none is. Numbers
    /// that [`TonicContext::exception_text`] shows are left out.
    pub fn exception_message(&self) -> (r: &str)
        ensures
            r@ == match self.exception {
                Some(error) => error.message@,
                None => ""@,
            },
    {
        match &self.exception {
            Some(error) => error.message.as_str(),
            None => "",
        }
    }

    /// Sets an exception whose text was given as UTF-8, or not.
    pub fn raise_exception(&mut self, kind: TonicExceptionKind, text: Option<&str>) -> (r: core::result::Result<
        (),
        BoundaryError,
    >)
        ensures
            final(self).live == old(self).live,
            final(self).context == old(self).context,
            match text {
                None => rejects(r, invalid_argument("exception message is not UTF-8"))
                    && final(self).exception == old(self).exception,
                Some(text) => match exception_class(kind) {
                    None => rejects(r, invalid_argument("unknown exception kind")) && final(
                        self).exception == old(self).exception,
                    Some(class) => r is Ok && exception_view(final(self).exception) == Some(
                        fault(class, text),
                    ),
                },
            },
    {
        let text = match text {
            Some(text) => text,
            None => {
                return Err(BoundaryError::InvalidArgument("exception message is not UTF-8"));
            },
        };
        match exception_name(kind) {
            Some(class) => {
                self.exception = Some(Diagnostic::new(class, text));
                Ok(())
            },
            None => Err(BoundaryError::InvalidArgument("unknown exception kind")),
        }
    }

    /// Exports a buffer as flags ask; the addresses are left to the embedder.
    pub fn buffer_export(&mut self, handle: TonicHandle, requested: u64) -> (r: core::result::Result<
        TonicBuffer,
        BoundaryError,
    >)
        requires
            old(self).context.wf(),
        ensures
            final(self).context.wf(),
            final(self).live == old(self).live,
            final(self).exception == old(self).exception,
            if requested & !(BUFFER_WRITABLE | BUFFER_C_CONTIGUOUS) != 0 {
                rejects(r, unsupported("unknown buffer request flags")) && final(self).context
                    == old(self).context
            } else {
                buffer_exported(
                    old(self).context,
                    final(self).context,
                    r,
                    handle,
                    requested & BUFFER_WRITABLE != 0,
                )
            },
    {
        if requested & !(BUFFER_WRITABLE | BUFFER_C_CONTIGUOUS) != 0 {
            return Err(BoundaryError::Unsupported("unknown buffer request flags"));
        }
        let writable = requested & BUFFER_WRITABLE != 0;
        let exported = self.context.export_f64_buffer(handle.into_internal(), writable);
        match exported {
            Err(error) => Err(BoundaryError::Diagnostic(error)),
            Ok((owner, parts)) => {
                let flags = if parts.writable {
                    BUFFER_C_CONTIGUOUS | BUFFER_WRITABLE
                } else {
                    BUFFER_C_CONTIGUOUS
                };
                Ok(
                    TonicBuffer {
                        struct_size: TONIC_BUFFER_SIZE,
                        dtype: DType::float64(),
                        flags,
                        data: 0,
                        byte_len: parts.byte_len,
                        item_size: ELEMENT_BYTES,
                        ndim: parts.ndim,
                        reserved: 0,
                        shape: 0,
                        strides: 0,
                        owner: TonicHandle::from_internal(owner),
                    },
                )
            },
        }
    }

    /// Releases an exported buffer by its descriptor.
    pub fn buffer_release(&mut self, buffer: &TonicBuffer) -> (r: core::result::Result<
        TonicBuffer,
        BoundaryError,
    >)
        requires
            old(self).context.wf(),
        ensures
            final(self).context.wf(),
            final(self).live == old(self).live,
            final(self).exception == old(self).exception,
            if buffer.struct_size < TONIC_BUFFER_SIZE {
                rejects(r, invalid_argument("buffer descriptor is smaller than ABI v1"))
                    && final(self).context == old(self).context
            } else {
                buffer_released(old(self).context, final(self).context, r, buffer.owner)
            },
    {
        if buffer.struct_size < TONIC_BUFFER_SIZE {
            return Err(
                BoundaryError::InvalidArgument("buffer descriptor is smaller than ABI v1"),
            );
        }
        match self.context.release_buffer_owner(buffer.owner.into_internal()) {
            Ok(_) => Ok(TonicBuffer::empty()),
            Err(error) => Err(BoundaryError::Diagnostic(error)),
        }
    }

    /// The result of a native call: what it returned is good only where it
    /// reported success and left no exception set.
    pub fn finish_native(&mut self, status: Option<TonicStatus>, output: TonicHandle) -> (r: Result<
        Handle,
    >)
        ensures
            !final(self).live,
            final(self).context == old(self).context,
            final(self).exception == if status is None {
                old(self).exception
            } else {
                None
            },
            match status {
                None => refuses(
                    r,
                    fault(
                        "RuntimeError",
                        "native extension panic was contained at the Tonic C ABI boundary",
                    ),
                ),
                Some(status) => match old(self).exception {
                    Some(error) => refuses(r, error@),
                    None => if status != TonicStatus::ok() {
                        refuses(
                            r,
                            fault(
                                "NativeError",
                                "native extension returned failure without setting an exception",
                            ),
                        )
                    } else {
                        native_output(old(self).context, r, output)
                    },
                },
            },
    {
        self.live = false;
        let status = match status {
            Some(status) => status,
            None => {
                return Err(
                    Diagnostic::new(
                        "RuntimeError",
                        "native extension panic was contained at the Tonic C ABI boundary",
                    ),
                );
            },
        };
        if let Some(error) = self.exception.take() {
            return Err(error);
        }
        if status != TonicStatus::ok() {
            return Err(
                Diagnostic::new(
                    "NativeError",
                    "native extension returned failure without setting an exception",
                ),
            );
        }
        let handle = output.into_internal();
        self.context.resolve(handle)?;
        Ok(handle)
    }

    /// The result of an extension's initialization.
    pub fn finish_init(&mut self, status: Option<TonicStatus>) -> (r: Result<()>)
        ensures
            !final(self).live,
            final(self).context == old(self).context,
            final(self).exception == if status is None {
                old(self).exception
            } else {
                None
            },
            match status {
                None => refuses(
                    r,
                    fault(
                        "RuntimeError",
                        "native extension init panic was contained at the Tonic C ABI boundary",
                    ),
                ),
                Some(status) => match old(self).exception {
                    Some(error) => refuses(r, error@),
                    None => if status != TonicStatus::ok() {
                        refuses(
                            r,
                            fault(
                                "NativeError",
                                "extension init returned failure without setting an exception",
                            ),
                        )
                    } else {
                        r is Ok
                    },
                },
            },
    {
        self.live = false;
        let status = match status {
            Some(status) => status,
            None => {
                return Err(
                    Diagnostic::new(
                        "RuntimeError",
                        "native extension init panic was contained at the Tonic C ABI boundary",
                    ),
                );
            },
        };
        if let Some(error) = self.exception.take() {
            return Err(error);
        }
        if status != TonicStatus::ok() {
            return Err(
                Diagnostic::new(
                    "NativeError",
                    "extension init returned failure without setting an exception",
                ),
            );
        }
        Ok(())
    }
}

/// Whether the output of a native call is a good handle.
pub open spec fn native_output(
    context: Context,
    result: core::result::Result<Handle, Diagnostic>,
    output: TonicHandle,
) -> bool {
    match context.value_of(Handle::of(output.0)) {
        Ok(_) => result matches Ok(found) && found == Handle::of(output.0),
        Err(error) => refuses(result, error),
    }
}

/// Whether a context is as before.
pub open spec fn kept(before: Context, after: Context) -> bool {
    same_handles(before, after) && after.heap@ == before.heap@
}

/// What exporting a buffer does.
pub open spec fn buffer_exported(
    before: Context,
    after: Context,
    result: core::result::Result<TonicBuffer, BoundaryError>,
    buffer: TonicHandle,
    writable: bool,
) -> bool {
    match before.value_of(Handle::of(buffer.0)) {
        Err(error) => kept(before, after) && rejects(result, BoundaryFault::Diagnostic(error)),
        Ok(value) => match exportable(before.heap@, value, writable) {
            Err(error) => kept(before, after) && rejects(result, BoundaryFault::Diagnostic(error)),
            Ok(view) => descriptor_handed(before, after, result, value, view),
        },
    }
}

/// Whether a descriptor of a buffer was given out.
pub open spec fn descriptor_handed(
    before: Context,
    after: Context,
    result: core::result::Result<TonicBuffer, BoundaryError>,
    value: Value,
    view: crate::buffer::BufferView,
) -> bool {
    exists|made: core::result::Result<(Handle, crate::buffer::ExportParts), Diagnostic>|
        #![trigger owner_handed(before, after, made, value, view)]
        owner_handed(before, after, made, value, view) && match made {
            Err(error) => rejects(result, BoundaryFault::Diagnostic(error@)),
            Ok((owner, parts)) => result matches Ok(found) && found.struct_size
                == TONIC_BUFFER_SIZE && found.dtype == DType::float64() && found.flags == (
            if parts.writable {
                BUFFER_C_CONTIGUOUS | BUFFER_WRITABLE
            } else {
                BUFFER_C_CONTIGUOUS
            }) && found.byte_len == parts.byte_len && found.item_size == ELEMENT_BYTES
                && found.ndim == parts.ndim && found.reserved == 0 && found.owner.0
                == owner.word(),
        }
}

/// What releasing a buffer does.
pub open spec fn buffer_released(
    before: Context,
    after: Context,
    result: core::result::Result<TonicBuffer, BoundaryError>,
    owner: TonicHandle,
) -> bool {
    &&& after.heap == before.heap && after.tokens == before.tokens && after.locals
        == before.locals
    &&& match resolved_as(before.handles@, Handle::of(owner.0), HandleKind::BufferOwner) {
        Ok(_) => result matches Ok(empty) && empty == TonicBuffer::empty() && held(
            after.handles@,
            Handle::of(owner.0),
        ) is None && forall|other: Handle|
            other != Handle::of(owner.0) ==> #[trigger] held(after.handles@, other) == held(
                before.handles@,
                other,
            ),
        Err(error) => rejects(result, BoundaryFault::Diagnostic(error)) && after.handles@
            == before.handles@,
    }
}

impl TonicBuffer {
    /// A descriptor of nothing.
    #[verifier::allow_in_spec]
    pub fn empty() -> TonicBuffer
        returns
            (TonicBuffer {
                struct_size: TONIC_BUFFER_SIZE,
                dtype: DType::float64(),
                flags: 0,
                data: 0,
                byte_len: 0,
                item_size: 0,
                ndim: 0,
                reserved: 0,
                shape: 0,
                strides: 0,
                owner: TonicHandle(0),
            }),
    {
        TonicBuffer {
            struct_size: TONIC_BUFFER_SIZE,
            dtype: DType::float64(),
            flags: 0,
            data: 0,
            byte_len: 0,
            item_size: 0,
            ndim: 0,
            reserved: 0,
            shape: 0,
            strides: 0,
            owner: TonicHandle(0),
        }
    }
}

} // verus!
