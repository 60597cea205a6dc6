//! What crosses the boundary to native code.
use vstd::prelude::*;
use crate::c_api::{
    exception_name,
    negotiate_api,
    number_of_kind,
    BoundaryEnd,
    BoundaryError,
    TonicApi,
    TonicContext,
    TonicExceptionKind,
    TonicHandle,
    TonicStatus,
    TonicValueKind,
};
use crate::diagnostic::Result;
use crate::handles::Handle;
use crate::native::ValueKind;

verus! {

/// A handle that crosses the boundary comes back as itself.
pub proof fn handles_come_back(handle: Handle, word: TonicHandle, back: Handle)
    requires
        call_ensures(TonicHandle::from_internal, (handle,), word),
        call_ensures(TonicHandle::into_internal, (word,), back),
    ensures
        back.word() == handle.word(),
{
}

/// Kinds of values have numbers of their own.
pub proof fn kinds_have_their_own_numbers(
    a: ValueKind,
    b: ValueKind,
    x: TonicValueKind,
    y: TonicValueKind,
)
    requires
        call_ensures(number_of_kind, (a,), x),
        call_ensures(number_of_kind, (b,), y),
    ensures
        a != b ==> x != y,
{
}

/// Kinds of exceptions have names of their own.
pub proof fn exceptions_have_their_own_names(
    a: TonicExceptionKind,
    b: TonicExceptionKind,
    x: Option<&'static str>,
    y: Option<&'static str>,
)
    requires
        call_ensures(exception_name, (a,), x),
        call_ensures(exception_name, (b,), y),
    ensures
        a != b && x is Some && y is Some ==> x->Some_0@ != y->Some_0@,
        a == TonicExceptionKind::runtime_error() ==> x is Some && x->Some_0@ == "RuntimeError"@,
        a == TonicExceptionKind::type_error() ==> x is Some && x->Some_0@ == "TypeError"@,
        a == TonicExceptionKind::value_error() ==> x is Some && x->Some_0@ == "ValueError"@,
        a == TonicExceptionKind::overflow_error() ==> x is Some && x->Some_0@ == "OverflowError"@,
        a == TonicExceptionKind::handle_error() ==> x is Some && x->Some_0@ == "HandleError"@,
        a == TonicExceptionKind::python_error() ==> x is Some && x->Some_0@ == "PythonError"@,
{
    reveal_strlit("RuntimeError");
    reveal_strlit("TypeError");
    reveal_strlit("ValueError");
    reveal_strlit("OverflowError");
    reveal_strlit("HandleError");
    reveal_strlit("PythonError");
    assert("RuntimeError"@[0] != "PythonError"@[0]);
    assert("TypeError"@[0] != "ValueError"@[0]);
    assert("HandleError"@[0] != "PythonError"@[0]);
    assert("RuntimeError"@[0] == 'R' && "OverflowError"@[0] == 'O' && "HandleError"@[0] == 'H'
        && "PythonError"@[0] == 'P' && "TypeError"@[0] == 'T' && "ValueError"@[0] == 'V');
}

/// A table that was agreed on has every capability that was required.
pub proof fn agreed_tables_have_what_is_required(
    version: u32,
    size: u32,
    required: u64,
    r: Result<TonicApi>,
)
    requires
        call_ensures(negotiate_api, (version, size, required), r),
    ensures
        r is Ok ==> r->Ok_0.abi_version == version && size <= r->Ok_0.struct_size && required
            & !r->Ok_0.capabilities == 0,
        r is Err ==> r->Err_0@.kind == "NativeAbiError"@,
{
}

/// A failure inside an operation is kept for native code to read, with a
/// status that is not success; a success changes nothing.
pub proof fn failures_are_kept(
    context: &mut TonicContext,
    end: BoundaryEnd,
    status: TonicStatus,
    success: TonicStatus,
)
    requires
        call_ensures(TonicContext::settle, (context, end), status),
        success == TonicStatus::ok(),
    ensures
        end is Returned ==> status == success && (final(context).exception is Some
            == old(context).exception is Some),
        !(end is Returned) ==> status != success && final(context).exception is Some,
        end matches BoundaryEnd::Failed(BoundaryError::Diagnostic(error)) ==> final(
            context).exception is Some && final(context).exception->Some_0@ == error@,
        final(context).context == old(context).context,
        final(context).live == old(context).live,
{
}

/// What native code leaves ends its context: an exception that it set is the
/// failure, whatever the status; a bad status or a panic is a failure too.
pub proof fn native_failures_are_raised(
    context: &mut TonicContext,
    status: Option<TonicStatus>,
    output: TonicHandle,
    r: Result<Handle>,
    success: TonicStatus,
    back: Handle,
)
    requires
        call_ensures(TonicContext::finish_native, (context, status, output), r),
        call_ensures(TonicHandle::into_internal, (output,), back),
        success == TonicStatus::ok(),
    ensures
        !final(context).live,
        status is None ==> r is Err && r->Err_0@.kind == "RuntimeError"@,
        status is Some && old(context).exception is Some ==> r is Err && r->Err_0@
            == old(context).exception->Some_0@,
        status is Some && old(context).exception is None && status != Some(success) ==> r is Err
            && r->Err_0@.kind == "NativeError"@,
        r is Ok ==> status == Some(success) && old(context).exception is None && r->Ok_0
            == back,
{
}

} // verus!
