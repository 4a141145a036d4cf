use vstd::prelude::*;

verus! {

/// The buffered reader that the `embedded-io` asynchronous API drives; it
/// buffers and decodes exactly as `CborReader` does.
pub type AsyncCborReader = super::CborReader;

} // verus!
