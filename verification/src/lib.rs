//! Verified core logic of the Maroon experiments: the timed task state
//! machine with its scheduler and the laws of its task programs, the layers
//! of a task graph, a JSON-bytecode stack machine, content negotiation, the
//! rules of the trade feed and of the sums journal, sequence-diagram
//! building, identifier classification, and a few smaller computations used
//! by the command-line tools.

pub mod text;
pub mod terms;
pub mod logical_time;
pub mod task_messages;
pub mod tasks;
pub mod scheduler;
pub mod ackermann;
pub mod strings;
pub mod maroon_vm;
pub mod mermaid;
pub mod http;
pub mod task_layers;
pub mod trades;
pub mod journal;
pub mod task_requests;
pub mod calculator;
pub mod greeting;
pub mod broker;
pub mod task_runs;
