use vstd::prelude::*;

use crate::vm::VMError;

verus! {

/// A host-supplied byte source for single-byte blocking reads (the
/// keyboard). `read_one` hands back the next input byte; nothing is assumed
/// about which byte arrives. On an I/O failure it reports `StandardIO`,
/// never another kind.
pub trait ByteSource {
    fn read_one(&mut self) -> (r: Result<u8, VMError>)
        ensures
            r is Err ==> r == Err::<u8, VMError>(VMError::StandardIO),
    ;
}

/// A host-supplied byte sink for single-byte writes (the console), with a
/// flush primitive. On an I/O failure both report `StandardIO`, never
/// another kind.
pub trait ByteSink {
    fn write_one(&mut self, b: u8) -> (r: Result<(), VMError>)
        ensures
            r is Err ==> r == Err::<(), VMError>(VMError::StandardIO),
    ;

    fn flush(&mut self) -> (r: Result<(), VMError>)
        ensures
            r is Err ==> r == Err::<(), VMError>(VMError::StandardIO),
    ;
}

} // verus!
