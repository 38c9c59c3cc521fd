//! What the worker runtime and the standard library compute for the backend,
//! with what is known of it.

use vstd::prelude::*;
use web_sys::{js_sys, wasm_bindgen::JsCast, WorkerGlobalScope};
use vstd::utf8::{decode_utf8, valid_utf8};

verus! {

/// `std::str::from_utf8`: the text that `bytes` encode, where they are valid
/// UTF-8, and nothing otherwise.
#[verifier::external_body]
pub(crate) fn text_of_utf8(bytes: &[u8]) -> (text: Option<&str>)
    ensures
        text is Some <==> valid_utf8(bytes@),
        text matches Some(t) ==> t@ == decode_utf8(bytes@),
{
    match std::str::from_utf8(bytes) {
        Ok(text) => Some(text),
        Err(_) => None,
    }
}

/// `Crypto::get_random_values_with_u8_array` on the crypto object of the
/// worker's global scope: six bytes from the runtime's random source, or
/// nothing where the runtime offers no crypto object or refuses the request.
/// Nothing is stated of the bytes. Off the wasm target, where the imported
/// JavaScript functions do not exist, the call panics.
#[verifier::external_body]
pub(crate) fn random_bytes() -> Option<[u8; 6]> {
    let mut bytes = <[u8; 6]>::default();
    let crypto = match WorkerGlobalScope::unchecked_from_js(js_sys::global().into()).crypto() {
        Ok(crypto) => crypto,
        Err(_) => return None,
    };
    match crypto.get_random_values_with_u8_array(&mut bytes) {
        Ok(_) => Some(bytes),
        Err(_) => None,
    }
}

/// `Crypto::random_uuid` on the crypto object of the worker's global scope: a
/// fresh random UUID in text form, or nothing where the runtime offers no
/// crypto object. Nothing is stated of the text. Off the wasm target, where
/// the imported JavaScript functions do not exist, the call panics.
#[verifier::external_body]
pub(crate) fn random_uuid() -> Option<String> {
    match WorkerGlobalScope::unchecked_from_js(js_sys::global().into()).crypto() {
        Ok(crypto) => Some(crypto.random_uuid()),
        Err(_) => None,
    }
}

} // verus!
