//! A minimal cooperative-task runtime, together with a few free-standing
//! verified utilities: a blocking single-task driver, a two-way join
//! combinator, a worker-thread bridge for blocking computations, assertion
//! helpers, open-addressing hash maps, a stack-shaped list, and a typed
//! scratch buffer.

pub mod executor;
pub mod expect;
pub mod hashmap;
pub mod hashmaps;
pub mod innocent_linked_list;
pub mod join;
pub mod scratch;
pub mod spawn_blocking;
pub mod task;
pub mod unroll_int;
pub mod wake;

pub use executor::Executor;
pub use expect::{expect, Assert};
pub use hashmap::{HashMap, IntoIter, MapKey};
pub use innocent_linked_list::Node;
pub use join::{join2, Join2};
pub use scratch::Scratch;
pub use spawn_blocking::{offload_job, offload_pair, Completer, JoinHandle, WorkerJob};
pub use task::{CountdownTask, Progress, Task};
pub use wake::{WakeGate, WakeNotification};
