//! Chaos-game fractal rendering: a saturating accumulator canvas, a stream of
//! decision bits, the two-branch chaos-game loop and a render supervisor.
pub mod canvas;
pub mod decisions;
pub mod engine;
pub mod params;
pub mod supervisor;

pub use crate::canvas::Canvas;
pub use crate::engine::{fractalize, render_words};
pub use crate::params::FractalMethod;
pub use crate::supervisor::{Fractal, RenderJob, RenderSupervisor, SupervisorState, TaskPoll};
