//! Verified core of a teaching kernel's scheduling and synchronisation
//! syscalls: stride bookkeeping, the ready queue, the banker-style resource
//! accounting behind mutexes and semaphores, and the argument handling of the
//! memory syscalls.
pub mod manager;
pub mod process;
pub mod stride;
pub mod sync;
