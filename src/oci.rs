//! What the runner decides around fetching its module image: the reference
//! to pull, the media types to accept, and whether the artifact has the
//! single layer that holds the module.

use vstd::prelude::*;
use crate::text::{decimal_text, digit_char, texts};

verus! {

/// The one-character text of digit `d < 10`.
fn digit_str(d: usize) -> (r: &'static str)
    requires
        d < 10,
    ensures
        r@ == seq![digit_char(d as nat)],
{
    proof {
        reveal_strlit("0");
        reveal_strlit("1");
        reveal_strlit("2");
        reveal_strlit("3");
        reveal_strlit("4");
        reveal_strlit("5");
        reveal_strlit("6");
        reveal_strlit("7");
        reveal_strlit("8");
        reveal_strlit("9");
    }
    let r = if d == 0 {
        "0"
    } else if d == 1 {
        "1"
    } else if d == 2 {
        "2"
    } else if d == 3 {
        "3"
    } else if d == 4 {
        "4"
    } else if d == 5 {
        "5"
    } else if d == 6 {
        "6"
    } else if d == 7 {
        "7"
    } else if d == 8 {
        "8"
    } else {
        "9"
    };
    assert(r@ =~= seq![digit_char(d as nat)]);
    r
}

/// The decimal text of `n`.
fn decimal_string(n: usize) -> (r: String)
    ensures
        r@ == decimal_text(n as nat),
{
    let mut m = n;
    let mut acc = String::new();
    while m >= 10
        invariant
            decimal_text(n as nat) == decimal_text(m as nat) + acc@,
        decreases m,
    {
        let ghost before = acc@;
        acc = String::from_str(digit_str(m % 10)).concat(acc.as_str());
        assert(decimal_text(m as nat) == decimal_text((m / 10) as nat).push(digit_char((m % 10) as nat)));
        assert(decimal_text(m as nat) + before =~= decimal_text((m / 10) as nat) + acc@);
        m = m / 10;
    }
    let r = String::from_str(digit_str(m)).concat(acc.as_str());
    assert(decimal_text(m as nat) == seq![digit_char(m as nat)]);
    r
}

pub open spec fn oci_scheme() -> Seq<char> {
    seq!['o', 'c', 'i', ':', '/', '/']
}

/// The image reference with a leading `oci://` removed.
pub open spec fn reference_of(imgname: Seq<char>) -> Seq<char> {
    if imgname.len() >= 6 && imgname.subrange(0, 6) == oci_scheme() {
        imgname.subrange(6, imgname.len() as int)
    } else {
        imgname
    }
}

/// The reference to pull for an image name: a leading `oci://` is dropped.
pub fn strip_oci_prefix(imgname: &str) -> (r: &str)
    ensures
        r@ == reference_of(imgname@),
{
    let n = imgname.unicode_len();
    if n >= 6 {
        let head = imgname.substring_char(0, 6);
        let scheme = "oci://";
        proof {
            reveal_strlit("oci://");
        }
        assert(scheme@ =~= oci_scheme());
        if crate::text::same_text(head, scheme) {
            return imgname.substring_char(6, n);
        }
    }
    imgname
}

/// The media types a module layer may have, in order of preference.
pub fn accepted_media_types() -> (r: Vec<String>)
    ensures
        texts(r@) == seq![
            "application/wasm"@,
            "application/vnd.wasm.content.layer.v1+wasm"@,
            "application/vnd.module.wasm.content.layer.v1+wasm"@,
        ],
{
    let mut r: Vec<String> = Vec::new();
    r.push(String::from_str("application/wasm"));
    r.push(String::from_str("application/vnd.wasm.content.layer.v1+wasm"));
    r.push(String::from_str("application/vnd.module.wasm.content.layer.v1+wasm"));
    assert(texts(r@) =~= seq![
        "application/wasm"@,
        "application/vnd.wasm.content.layer.v1+wasm"@,
        "application/vnd.module.wasm.content.layer.v1+wasm"@,
    ]);
    r
}

/// The error of an artifact without exactly one layer.
pub fn bad_num_of_layers_err() -> (r: String)
    ensures
        r@ == "expected to have one layer"@,
{
    String::from_str("expected to have one layer")
}

/// Accepts an artifact of exactly one layer; otherwise the message gives
/// the number of layers found.
pub fn check_layer_count(layers: usize) -> (r: Result<(), String>)
    ensures
        r is Ok <==> layers == 1,
        match r {
            Ok(_) => true,
            Err(m) => m@ == "expected to have one layer, got "@ + decimal_text(layers as nat),
        },
{
    if layers == 1 {
        Ok(())
    } else {
        let count = decimal_string(layers);
        Err(String::from_str("expected to have one layer, got ").concat(count.as_str()))
    }
}

/// The image to run: the configured one, or where that is empty the
/// alternative source, if any.
pub fn select_image(configured: &str, alternative: Option<String>) -> (r: Option<String>)
    ensures
        configured@.len() > 0 ==> r is Some && r->0@ == configured@,
        configured@.len() == 0 ==> match alternative {
            Some(a) => r is Some && r->0@ == a@,
            None => r is None,
        },
{
    if configured.unicode_len() > 0 {
        Some(String::from_str(configured))
    } else {
        alternative
    }
}

} // verus!
