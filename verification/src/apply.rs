//! The compute side of applying a descriptor: from input text to a decoded
//! descriptor, and from a descriptor to the staging artifact's text.  Reading
//! the input and writing the artifact are the caller's part; every decision
//! in between is made and verified here.

use vstd::prelude::*;

use crate::errors::Error;
use crate::schema::{
    dec_config, decode_config, decode_error_text, encode_config, ConfigV, Configuration,
    DecodeErrorV,
};
use crate::serial::{emit_result, parse_result};
use crate::text::strs_view;
use crate::yaml::{yaml_view, YamlV};

verus! {

/// Parses descriptor text and decodes it under the closed-world policy: the
/// parse is exactly [`parse_result`] on the text, and the decode exactly
/// [`dec_config`] on the parsed tree.  A failure of either carries that
/// stage's message as the chain's one frame.
pub fn load_config(text: &str) -> (r: Result<Configuration, Error>)
    ensures
        (match parse_result(text@) {
            Ok(yv) => match dec_config(yv) {
                Ok(cv) => r matches Ok(c) && c.deep_view() == cv,
                Err(e) => r matches Err(err) && strs_view(err.frames@) == seq![
                    decode_error_text(e),
                ] && err.trace is None,
            },
            Err(m) => r matches Err(err) && strs_view(err.frames@) == seq![m] && err.trace
                is None,
        }),
{
    match crate::serial::parse_yaml_text(text) {
        Ok(y) => {
            let ghost yv = yaml_view(y);
            match decode_config(y) {
                Ok(c) => Ok(c),
                Err(e) => Err(Error::new(e.message())),
            }
        },
        Err(m) => Err(Error::new(m)),
    }
}

/// Renders a descriptor to the staging artifact's text: the descriptor is
/// re-encoded as exactly [`crate::schema::enc_config`] of its abstraction,
/// and the text is exactly [`emit_result`] of that tree.  A serializer
/// failure carries its message as the chain's one frame.
pub fn render_config(c: &Configuration) -> (r: Result<String, Error>)
    ensures
        (match r {
            Ok(s) => emit_result(crate::schema::enc_config(c.deep_view())) == Ok::<
                Seq<char>,
                Seq<char>,
            >(s@),
            Err(err) => (emit_result(crate::schema::enc_config(c.deep_view())) matches Err(m)
                && strs_view(err.frames@) == seq![m] && err.trace is None),
        }),
{
    let tree = encode_config(c);
    match crate::serial::emit_yaml_text(&tree) {
        Ok(text) => Ok(text),
        Err(m) => Err(Error::new(m)),
    }
}

} // verus!
