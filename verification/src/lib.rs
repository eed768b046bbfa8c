//! A bridge that carries a stateful processing routine from the context that
//! builds an audio pipeline into the isolated context that renders it.
//!
//! The two contexts share nothing but a table of parked routines. The
//! controlling context parks a routine there and gets a handle, a single
//! integer, which it hands to a processor node of its audio graph. The
//! rendering context redeems the handle once, on the node's first audio
//! quantum, and from then on invokes the routine once per quantum until the
//! routine asks to stop.
//!
//! - [`routine`]: the processing routine and what one invocation does.
//! - [`handle`]: the table of parked routines and the handle codec.
//! - [`processor`]: the processor node as the rendering context runs it.
//! - [`graph`]: the audio graph and its connections.
//! - [`reach`]: walks through a graph, and when a connection closes a loop.
//! - [`lifecycle`]: the decisions of bringing a bridge up and taking it down.
//! - [`audio`]: filling an interleaved output block.

pub mod audio;
pub mod graph;
pub mod handle;
pub mod lifecycle;
pub mod processor;
pub mod reach;
pub mod routine;

pub use audio::write_data;
pub use graph::{wasm_audio_node, AudioGraph, AudioGraphNode, BridgeError, CaptureOutcome};
pub use handle::{HandleError, HandleTable, OpaqueHandle};
pub use lifecycle::{audio_init, AudioWorker, BridgeAction, BridgeEvent, CaptureRequest};
pub use processor::{Outcome, ProcessorNode, ProcessorState};
pub use routine::{Routine, Sink, WasmAudioProcessor};
