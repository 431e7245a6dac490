//! Buffers that can be reached in a critical section only.
use cortex_m::interrupt::{CriticalSection, Mutex};

use crate::buffer::EndpointBuffer;
use vstd::prelude::*;

verus! {

/// `cortex_m::interrupt::CriticalSection`, the token that interrupts are masked.
#[verifier::external_type_specification]
#[verifier::external_body]
pub struct ExCriticalSection(CriticalSection);

/// `cortex_m::interrupt::Mutex`, which lends its value within a critical section.
#[verifier::external_type_specification]
#[verifier::external_body]
#[verifier::reject_recursive_types(T)]
pub struct ExMutex<T>(Mutex<T>);

/// The buffer that `mutex` holds.
pub uninterp spec fn guarded(mutex: Mutex<EndpointBuffer>) -> EndpointBuffer;

/// Calls `Mutex::new`: the mutex holds the value that it is made with.
#[verifier::external_body]
pub(crate) fn guard(buffer: EndpointBuffer) -> (mutex: Mutex<EndpointBuffer>)
    ensures
        guarded(mutex) == buffer,
{
    Mutex::new(buffer)
}

/// Calls `Mutex::borrow`: it lends the value that the mutex holds.
///
/// The value stays the one that the mutex was made with: it is lent as a shared reference, and a
/// buffer has nothing that can be changed through one.
#[verifier::external_body]
pub(crate) fn borrow<'cs>(
    mutex: &'cs Mutex<EndpointBuffer>,
    cs: &'cs CriticalSection,
) -> (buffer: &'cs EndpointBuffer)
    ensures
        *buffer == guarded(*mutex),
{
    mutex.borrow(cs)
}

/// The buffer that an optional mutex holds.
pub open spec fn held(mutex: Option<Mutex<EndpointBuffer>>) -> Option<EndpointBuffer> {
    match mutex {
        Some(m) => Some(guarded(m)),
        None => None,
    }
}

/// The buffer that an optional mutex holds.
pub(crate) fn peek(mutex: &Option<Mutex<EndpointBuffer>>, cs: &CriticalSection) -> (buffer: Option<
    EndpointBuffer,
>)
    ensures
        buffer == held(*mutex),
{
    match mutex {
        Some(m) => Some(*borrow(m, cs)),
        None => None,
    }
}

} // verus!
