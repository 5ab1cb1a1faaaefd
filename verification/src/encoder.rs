//! Configuration of the neural encoder service.
//!
//! The encoder itself (tokenization and ONNX inference over floating-point
//! tensors) lives outside this library; only its plain configuration is
//! modelled here.

use vstd::prelude::*;

verus! {

/// Options the encoder service is built with.
pub struct EncoderOptions {
    /// Whether token sequences are padded to the model's fixed length.
    pub pad_token_sequence: bool,
    /// Side length input images are resized to.
    pub input_image_size: usize,
}

} // verus!
