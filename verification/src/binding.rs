use vstd::prelude::*;

use crate::address::{trim_addr, trim_addr_spec};
use crate::error::PipeError;
use crate::pipe::{Pipe, PipeKind};

verus! {

/// A value handed in by a scripting caller as data to send or to wait for.
#[derive(Debug)]
pub enum Input {
    Text(String),
    Bytes(Vec<u8>),
    Other,
}

/// The bytes of an input: the UTF-8 encoding of text, bytes as they are;
/// anything else is refused.
pub fn inp_to_bytes(inp: Input) -> (res: Result<Vec<u8>, PipeError>)
    ensures
        inp matches Input::Text(s) ==> (res matches Ok(b) && b@ == vstd::utf8::encode_utf8(s@)),
        inp matches Input::Bytes(b) ==> (res matches Ok(r) && r@ == b@),
        inp is Other ==> (res matches Err(e) && e == PipeError::InputType),
{
    match inp {
        Input::Text(s) => {
            let bytes = s.as_str().as_bytes();
            let mut out: Vec<u8> = Vec::new();
            let mut i: usize = 0;
            while i < bytes.len()
                invariant
                    i <= bytes@.len(),
                    out@ == bytes@.take(i as int),
                decreases bytes@.len() - i,
            {
                out.push(bytes[i]);
                i = i + 1;
                assert(bytes@.take(i as int) =~= bytes@.take((i - 1) as int).push(bytes@[i - 1]));
            }
            assert(bytes@.take(bytes@.len() as int) =~= bytes@);
            Ok(out)
        },
        Input::Bytes(b) => Ok(b),
        Input::Other => Err(PipeError::InputType),
    }
}

/// A UDP pipe as a scripting caller sees it.
pub struct Udp {
    pub pipe: Pipe,
}

impl Udp {
    /// A UDP pipe to `addr`: a fresh pipe and the normalised address that the
    /// socket is connected to.
    pub fn connect(addr: &str) -> (res: (Udp, String))
        ensures
            res.0.pipe.is_fresh(PipeKind::Udp),
            res.1@ == trim_addr_spec(addr@),
    {
        let target = trim_addr(addr);
        (Udp { pipe: Pipe::new(PipeKind::Udp) }, target)
    }

    /// The output of a receive up to a delimiter, without its last byte when
    /// the caller asked to drop the delimiter.
    pub fn apply_drop(out: Vec<u8>, drop: Option<bool>) -> (res: Vec<u8>)
        requires
            drop == Some(true) ==> out@.len() > 0,
        ensures
            drop == Some(true) ==> res@ == out@.drop_last(),
            drop != Some(true) ==> res@ == out@,
    {
        match drop {
            Some(true) => {
                let mut o = out;
                o.pop();
                o
            },
            _ => out,
        }
    }
}

} // verus!
