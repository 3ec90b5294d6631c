pub mod channel;
pub mod echo;
pub mod epoll;
pub mod executor;
pub mod future;
pub mod io;
pub mod reactor;
pub mod runtime;
pub mod socket;
pub mod sys;
pub mod tcp;
