//! Streams that Apple's own library keeps open.
use crate::failure::Failure;
use vstd::prelude::*;

verus! {

/// Why a read or write of an Apple stream failed.
pub enum StreamFault {
    /// The operating system's error code.
    Os(i32),
    /// A message.
    Other(Failure),
}

/// A service connection of Apple's library. The handle is never null.
pub struct NativeStream {
    service: u64,
}

impl NativeStream {
    #[verifier::type_invariant]
    spec fn is_open(self) -> bool {
        self.service != 0
    }

    /// The handle.
    pub closed spec fn handle_value(self) -> u64 {
        self.service
    }

    /// The stream on a handle that Apple's library returned.
    pub fn open(service: u64) -> (stream: Result<NativeStream, Failure>)
        ensures
            match stream {
                Ok(stream) => service != 0 && stream.handle_value() == service,
                Err(failure) => service == 0 && failure.says(
                    "Apple returned an empty service connection"@,
                ),
            },
    {
        if service == 0 {
            return Err(Failure::said("Apple returned an empty service connection"));
        }
        Ok(NativeStream { service })
    }

    /// The handle, which is not null.
    pub fn handle(&self) -> (service: u64)
        ensures
            service == self.handle_value(),
            service != 0,
    {
        proof {
            use_type_invariant(self);
        }
        self.service
    }

    /// The socket to set a timeout on, where the library gave one.
    pub fn set_timeout(&self, socket: i64) -> (checked: Result<i64, Failure>)
        ensures
            match checked {
                Ok(checked) => socket > 0 && checked == socket,
                Err(failure) => socket <= 0 && failure.says("Invalid Apple service socket"@),
            },
    {
        if socket <= 0 {
            return Err(Failure::said("Invalid Apple service socket"));
        }
        Ok(socket)
    }
}

/// What a call that moved `n` bytes into or out of a buffer of `capacity` bytes
/// amounts to. `last_error` is the system's error code at that time.
pub fn io_result(n: i32, capacity: usize, last_error: i32) -> (moved: Result<usize, StreamFault>)
    ensures
        match moved {
            Ok(moved) => 0 <= n <= capacity && moved == n,
            Err(StreamFault::Os(code)) => n < 0 && last_error != 0 && code == last_error,
            Err(StreamFault::Other(failure)) => (n < 0 && last_error == 0 && failure.says(
                "Apple service I/O failed"@,
            )) || (n > capacity && failure.says("Invalid Apple service byte count"@)),
        },
{
    if n < 0 {
        return if last_error != 0 {
            Err(StreamFault::Os(last_error))
        } else {
            Err(StreamFault::Other(Failure::said("Apple service I/O failed")))
        };
    }
    if n as usize > capacity {
        return Err(StreamFault::Other(Failure::said("Invalid Apple service byte count")));
    }
    Ok(n as usize)
}

/// A call of the library succeeds exactly where it moved no fewer than no bytes and no
/// more than the buffer holds, and then as many as it says. The system's own error is
/// reported where it has one.
pub proof fn byte_counts_are_checked(
    n: i32,
    capacity: usize,
    last_error: i32,
    moved: Result<usize, StreamFault>,
)
    requires
        call_ensures(io_result, (n, capacity, last_error), moved),
    ensures
        moved is Ok <==> 0 <= n <= capacity,
        moved matches Ok(moved) ==> moved == n,
        moved matches Err(StreamFault::Os(code)) ==> n < 0 && code == last_error,
        n < 0 && last_error != 0 ==> (moved matches Err(StreamFault::Os(_))),
{
}

/// A stream stands on the handle that the library returned, which is never null, and a
/// timeout is set on the socket that the library gave, which is positive.
pub proof fn streams_stand_on_real_handles(
    service: u64,
    opened: Result<NativeStream, Failure>,
    stream: NativeStream,
    socket: i64,
    checked: Result<i64, Failure>,
)
    requires
        call_ensures(NativeStream::open, (service,), opened),
        call_ensures(NativeStream::set_timeout, (&stream, socket), checked),
    ensures
        opened is Ok <==> service != 0,
        opened matches Ok(opened) ==> opened.handle_value() == service,
        checked is Ok <==> socket > 0,
        checked matches Ok(checked) ==> checked == socket,
{
}

} // verus!
