//! Core of a drop-down terminal overlay: a bounded line-oriented scrollback
//! buffer fed by a raw byte stream, a debounced show/hide animation state
//! machine, a session liveness tracker, and a compositor that lays the
//! visible lines out for a presentation layer.

mod animator;
mod clock;
mod compositor;
mod overlay;
mod scrollback;
mod session;

pub use animator::Animator;
pub use animator::DEFAULT_DEBOUNCE_MS;
pub use animator::DEFAULT_DURATION_MS;
pub use animator::MAX_ANIM_PARAM;
pub use animator::VisibilityState;
pub use animator::clamped_progress;
pub use animator::lemma_debounce;
pub use animator::lemma_offset_in_range;
pub use animator::lemma_show_animation;
pub use animator::lemma_slide_in_monotonic;
pub use animator::lemma_slide_out_monotonic;
pub use animator::lemma_toggle_continuous;

pub use clock::elapsed_ms;
pub use clock::spec_elapsed;

pub use compositor::Frame;
pub use compositor::MAX_DIM;
pub use compositor::Row;
pub use compositor::Viewport;
pub use compositor::clamp_dim;
pub use compositor::render;
pub use compositor::spec_row_visible;
pub use compositor::spec_row_y;
pub use compositor::spec_rows;

pub use overlay::Overlay;
pub use overlay::fold_toggles;

pub use scrollback::DEFAULT_CAPACITY;
pub use scrollback::LINE_FEED;
pub use scrollback::ScrollbackBuffer;
pub use scrollback::clamp_offset;
pub use scrollback::complete_lines;
pub use scrollback::decoded_lines;
pub use scrollback::evict_to_cap;
pub use scrollback::find_nl;
pub use scrollback::follow_offset;
pub use scrollback::lemma_evict_keeps_newest;
pub use scrollback::lemma_ingest_chunk_invariant;
pub use scrollback::lossy_decode;
pub use scrollback::tail_fragment;
pub use scrollback::visible_window;

pub use session::ReadEvent;
pub use session::SessionError;
pub use session::SessionTracker;
pub use session::session_ended_note;
