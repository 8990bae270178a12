//! A binary-FSK acoustic data link: the packet codec, the transmit framer,
//! the receive synchronizer and the step function of the audio callback.
//!
//! Text is split into packets, every packet is framed with a checksum and
//! unpacked into bit symbols, and the framer sends each buffer behind a fixed
//! preamble. The synchronizer finds the preamble in the incoming symbols,
//! reassembles the frame and hands its text to the delivery queue.

pub mod bits;
pub mod checksum;
pub mod driver;
pub mod error;
pub mod link;
pub mod matcher;
pub mod packet;
pub mod preamble;
pub mod radio;
pub mod rx;
pub mod text;
pub mod tx;
pub mod window;

pub use error::RadioError;
pub use radio::{start, Radio};
pub use rx::receive;
pub use tx::transmit;
