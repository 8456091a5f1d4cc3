pub mod builtins;
pub mod debug;
pub mod env;
pub mod error;
pub mod eval;
pub mod leia;
pub mod repl;
pub mod value;
pub mod workspace;

pub use debug::{CliDebugger, DebugAction, NoopHook};
pub use env::{AssignError, FrameKind};
pub use error::{CallFrame, RuntimeError};
pub use leia::{LeiaHost, LEIA_MARKER};
pub use value::{MapKey, NumeroLocale};
