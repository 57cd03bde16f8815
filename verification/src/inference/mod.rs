pub mod dynamic_batcher;
pub mod generator;
pub mod paged_cache;
pub mod sampler;
pub mod simd_dispatch;
pub mod tensors;
pub mod thread_pinner;

pub use dynamic_batcher::{
    BatchCoalescer, BatchConfig, BatchOutcome, BatchRequest, BatchResult, BatchSettings,
    BatcherAction, BatcherError, BatcherEvent,
};
pub use generator::{
    ChatTemplate, GenerateError, Generator, Message, StreamEvent, TemplateError,
};
pub use paged_cache::{CacheError, KvPage, PagedAttentionConfig, PagedKvCache};
pub use sampler::{Sampler, SamplingStrategy};
pub use simd_dispatch::{get_simd, init_simd, CpuFeature, CpuFeatures, SimdDispatch, SimdLevel};
pub use thread_pinner::{
    get_thread_pinner, init_thread_pinner, pin_threads_to_cores, ThreadPinner, ThreadPinnerConfig,
};
