//! Everything this crate takes on trust about code it does not verify.
//!
//! Each item below states, without proof, a fact about a function or a type
//! of the standard library or of the `urlencoding` crate. Nothing else in
//! the crate is believed without proof.

use vstd::prelude::*;
use vstd::utf8::*;
use crate::text::option_text;
use std::ops::Deref;
use std::ops::DerefMut;
use std::sync::Arc;
use std::sync::LockResult;
use std::sync::Mutex;
use std::sync::MutexGuard;
use std::sync::PoisonError;
use std::time::Duration;
use std::time::SystemTime;
use std::time::SystemTimeError;
use std::time::UNIX_EPOCH;

verus! {

/// `String::push` appends the single character `ch` to the end of the
/// string and changes nothing else.
pub assume_specification[ String::push ](s: &mut String, ch: char)
    ensures
        final(s)@ == old(s)@.push(ch),
;

/// The text that `String::from_utf8_lossy` makes of `bytes`: their
/// characters, with U+FFFD in place of each part that is not UTF-8.
pub uninterp spec fn utf8_lossy(bytes: Seq<u8>) -> Seq<char>;

/// `String::from_utf8_lossy`: the result depends on the bytes alone, and
/// bytes that are UTF-8 throughout are decoded as they stand.
#[verifier::external_body]
pub(crate) fn decode_lossy(bytes: &[u8]) -> (text: String)
    ensures
        text@ == utf8_lossy(bytes@),
        valid_utf8(bytes@) ==> text@ == decode_utf8(bytes@),
{
    String::from_utf8_lossy(bytes).into_owned()
}

/// What `urlencoding::decode` makes of `data`: the text with each `%` and
/// two hexadecimal digits replaced by the byte they name, or nothing where
/// the bytes that result are not UTF-8.
pub uninterp spec fn percent_decoded(data: Seq<char>) -> Option<Seq<char>>;

/// `urlencoding::decode`: the result depends on the text alone, the error
/// is the only failure, and a text without `%` comes back unchanged.
#[verifier::external_body]
pub(crate) fn percent_decode(data: &str) -> (decoded: Option<String>)
    ensures
        option_text(decoded) == percent_decoded(data@),
        !data@.contains('%') ==> option_text(decoded) == Some(data@),
{
    match urlencoding::decode(data) {
        Ok(text) => Some(text.into_owned()),
        Err(_) => None,
    }
}

/// `std::time::SystemTime`, a reading of the system clock.
#[verifier::external_type_specification]
#[verifier::external_body]
pub struct ExSystemTime(SystemTime);

/// `std::time::SystemTimeError`, which says that a reading is earlier than
/// the one it was measured from.
#[verifier::external_type_specification]
#[verifier::external_body]
pub struct ExSystemTimeError(SystemTimeError);

/// `SystemTime::now` reads the clock; nothing is known of the reading.
pub assume_specification[ SystemTime::now ]() -> (now: SystemTime);

/// `SystemTime::duration_since` gives the time from `earlier` to the
/// reading, or an error where the reading is the earlier one.
pub assume_specification[ SystemTime::duration_since ](
    time: &SystemTime,
    earlier: SystemTime,
) -> (elapsed: Result<Duration, SystemTimeError>);

/// `Duration::as_millis` gives the span in whole milliseconds.
pub assume_specification[ Duration::as_millis ](duration: &Duration) -> (millis: u128);

/// The constant `std::time::UNIX_EPOCH`.
#[verifier::external_body]
pub(crate) fn unix_epoch() -> (epoch: SystemTime) {
    UNIX_EPOCH
}

/// `Arc::clone`: a second handle to the same value.
#[verifier::external_body]
pub(crate) fn share<T: ?Sized>(handle: &Arc<T>) -> (other: Arc<T>)
    ensures
        other == handle,
{
    Arc::clone(handle)
}

/// `std::sync::Mutex`. Nothing is known of the value inside: another
/// thread may have changed it.
#[verifier::external_type_specification]
#[verifier::external_body]
#[verifier::reject_recursive_types(T)]
pub struct ExMutex<T: ?Sized>(Mutex<T>);

/// `std::sync::MutexGuard`, the proof that the lock is held.
#[verifier::external_type_specification]
#[verifier::external_body]
#[verifier::reject_recursive_types(T)]
pub struct ExMutexGuard<'a, T: ?Sized + 'a>(MutexGuard<'a, T>);

/// `std::sync::PoisonError`, which a lock gives when a thread has
/// panicked while it held the lock.
#[verifier::external_type_specification]
#[verifier::external_body]
#[verifier::reject_recursive_types(T)]
pub struct ExPoisonError<T>(PoisonError<T>);

/// `Mutex::new` returns; nothing more is claimed.
pub assume_specification<T>[ Mutex::<T>::new ](t: T) -> (mutex: Mutex<T>);

/// `Mutex::lock` returns once the lock is held; nothing is claimed of what
/// it guards.
pub assume_specification<'a, T: ?Sized>[ Mutex::<T>::lock ](mutex: &'a Mutex<T>) -> (result:
    LockResult<MutexGuard<'a, T>>);

/// `PoisonError::into_inner` hands out what the error holds.
pub assume_specification<T>[ PoisonError::<T>::into_inner ](error: PoisonError<T>) -> (inner: T);

/// The guard gives access to the value behind the lock.
pub assume_specification<'a, 'b, T: ?Sized>[ <MutexGuard<'a, T> as Deref>::deref ](
    guard: &'b MutexGuard<'a, T>,
) -> (value: &'b T);

/// The guard gives access to the value behind the lock, to change it.
pub assume_specification<'a, 'b, T: ?Sized>[ <MutexGuard<'a, T> as DerefMut>::deref_mut ](
    guard: &'b mut MutexGuard<'a, T>,
) -> (value: &'b mut T);

} // verus!
