//! Shortening a text to a column width, counted in UTF-8 bytes.
use vstd::prelude::*;
use vstd::string::StringSliceAdditionalSpecFns;
use vstd::utf8::{encode_utf8, is_char_boundary};

verus! {

/// Encoding a concatenation encodes each part in turn.
proof fn lemma_encode_concat(x: Seq<char>, y: Seq<char>)
    ensures
        encode_utf8(x + y) == encode_utf8(x) + encode_utf8(y),
    decreases x.len(),
{
    if x.len() == 0 {
        assert(x + y =~= y);
        assert(encode_utf8(x) + encode_utf8(y) =~= encode_utf8(y));
    } else {
        lemma_encode_concat(x.drop_first(), y);
        assert((x + y).drop_first() =~= x.drop_first() + y);
        assert((x + y)[0] == x[0]);
        let e = vstd::utf8::encode_scalar(x[0] as u32);
        assert(e + (encode_utf8(x.drop_first()) + encode_utf8(y)) =~= (e + encode_utf8(x.drop_first()))
            + encode_utf8(y));
    }
}

/// `s` itself when its UTF-8 encoding fits in `max_len` bytes; otherwise
/// its first `max_len − 3` bytes followed by "...", so that the result
/// takes exactly `max_len` bytes.  A longer text must leave room for the
/// ellipsis and be cut at a character boundary; every text's encoding fits
/// in the address space.
pub fn truncate(s: &str, max_len: usize) -> (r: String)
    requires
        s.spec_bytes().len() <= usize::MAX,
        s.spec_bytes().len() > max_len ==> 3 <= max_len && is_char_boundary(s.spec_bytes(), max_len - 3),
    ensures
        s.spec_bytes().len() <= max_len ==> r@ == s@,
        s.spec_bytes().len() > max_len ==> encode_utf8(r@) == s.spec_bytes().subrange(0, max_len - 3)
            + encode_utf8("..."@),
{
    if s.len() <= max_len {
        String::from_str(s)
    } else {
        let (head, _rest) = s.split_at(max_len - 3);
        let mut r = String::from_str(head);
        r.append("...");
        proof {
            lemma_encode_concat(head@, "..."@);
            assert(head.spec_bytes() =~= s.spec_bytes().subrange(0, max_len - 3));
        }
        r
    }
}

} // verus!
