pub mod generation;
pub mod kvcache;
pub mod model;
pub mod params;
pub mod prompt;
pub mod scheduler;
pub mod session;
pub mod table;
pub mod tensor;

pub use generation::Generation;
pub use kvcache::{CacheError, KVCache};
pub use model::{Llama, LlamaConfig, ModelError};
pub use params::LLamaParams;
pub use scheduler::{Question, Scheduler, Slot, Task};
pub use session::{Checkpoint, Session};
pub use tensor::{Tensor, TensorError};
