//! The content of the small configuration file systems handed to a guest.
//! Formatting and writing the image is left to the caller.
use vstd::prelude::*;

use crate::run_dir::pairs_view;
use crate::text::{replace_all, replaced};
use vstd::utf8::encode_utf8;

verus! {

/// How a key appears in a template: `<KEY>`.
pub open spec fn placeholder(key: Seq<char>) -> Seq<char> {
    "<"@ + key + ">"@
}

/// `content` with the substitutions applied in order, each replacing every
/// `<KEY>` by its value.
pub open spec fn substituted(content: Seq<char>, subs: Seq<(Seq<char>, Seq<char>)>) -> Seq<char>
    decreases subs.len(),
{
    if subs.len() == 0 {
        content
    } else {
        replaced(substituted(content, subs.drop_last()), placeholder(subs.last().0), subs.last().1)
    }
}

/// A template file's text with every substitution applied.
pub fn substitute(content: &str, subs: &Vec<(String, String)>) -> (r: String)
    ensures
        r@ == substituted(content@, pairs_view(subs@)),
{
    let ghost sv = pairs_view(subs@);
    let mut text = content.to_owned();
    let mut i: usize = 0;
    assert(sv.take(0) =~= Seq::<(Seq<char>, Seq<char>)>::empty());
    while i < subs.len()
        invariant
            sv == pairs_view(subs@),
            i <= subs@.len(),
            text@ == substituted(content@, sv.take(i as int)),
        decreases subs@.len() - i,
    {
        proof {
            reveal_strlit("<");
            reveal_strlit(">");
        }
        let mut pattern = "<".to_owned();
        pattern.append(subs[i].0.as_str());
        pattern.append(">");
        assert(pattern@ == placeholder(subs@[i as int].0@));
        assert(pattern@.len() >= 2);
        assert(sv.take(i + 1).drop_last() =~= sv.take(i as int));
        assert(sv.take(i + 1).last() == (subs@[i as int].0@, subs@[i as int].1@));
        text = replace_all(text.as_str(), pattern.as_str(), subs[i].1.as_str());
        i = i + 1;
    }
    assert(sv.take(i as int) =~= sv);
    text
}

/// An 11-byte FAT volume label: the label's UTF-8 bytes, padded with spaces.
pub open spec fn volume_label_spec(label: Seq<char>) -> Seq<u8> {
    let bytes = encode_utf8(label);
    Seq::new(
        11,
        |i: int|
            if i < bytes.len() {
                bytes[i]
            } else {
                32u8
            },
    )
}

pub fn volume_label(label: &str) -> (r: Vec<u8>)
    requires
        encode_utf8(label@).len() <= 11,
    ensures
        r@ == volume_label_spec(label@),
{
    let bytes = label.as_bytes();
    let n = bytes.len();
    let mut r: Vec<u8> = Vec::new();
    let mut i: usize = 0;
    while i < 11
        invariant
            bytes@ == encode_utf8(label@),
            n == bytes@.len(),
            n <= 11,
            i <= 11,
            r@.len() == i,
            forall|j: int| 0 <= j < i ==> r@[j] == volume_label_spec(label@)[j],
        decreases 11 - i,
    {
        if i < n {
            r.push(bytes[i]);
        } else {
            r.push(32u8);
        }
        i = i + 1;
    }
    assert(r@ =~= volume_label_spec(label@));
    r
}

/// A configuration file system to build: where, how large, under which label.
pub struct ConfigFs {
    pub path: String,
    pub size: u64,
    pub volume_label: Vec<u8>,
}

impl ConfigFs {
    pub fn new(path: String, size: u64, label: &str) -> (r: ConfigFs)
        requires
            encode_utf8(label@).len() <= 11,
        ensures
            r.path@ == path@,
            r.size == size,
            r.volume_label@ == volume_label_spec(label@),
    {
        ConfigFs { path, size, volume_label: volume_label(label) }
    }
}

} // verus!
