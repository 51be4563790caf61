//! Longest common prefix of a list of ASCII strings.
use vstd::prelude::*;
use vstd::string::is_ascii_spec_bytes;
use vstd::utf8::{encode_utf8, is_ascii_chars_encode_utf8};

verus! {

/// The character sequences of a list of strings.
pub open spec fn views(strs: Seq<String>) -> Seq<Seq<char>> {
    strs.map_values(|s: String| s@)
}

/// The first `n` characters of every string agree with those of the first.
pub open spec fn is_common_prefix(strs: Seq<Seq<char>>, n: int) -> bool {
    &&& strs.len() > 0
    &&& 0 <= n
    &&& forall|i: int| 0 <= i < strs.len() ==> n <= (#[trigger] strs[i]).len()
    &&& forall|i: int, k: int| 0 <= i < strs.len() && 0 <= k < n ==> #[trigger] strs[i][k] == strs[0][k]
}

/// `index` is at or past the end of `s`, counted in bytes.
pub fn string_is_short(s: &String, index: usize) -> (r: bool)
    ensures
        r == (index >= encode_utf8(s@).len()),
{
    index >= s.as_str().as_bytes().len()
}

/// The character at byte `index` of an ASCII string.
pub fn char_at_ascii_string(s: &String, index: usize) -> (r: char)
    requires
        s.is_ascii(),
        index < s@.len(),
    ensures
        r == s@[index as int],
{
    broadcast use is_ascii_spec_bytes;

    let text = s.as_str();
    assert(vstd::string::is_ascii(text));
    let bytes = text.as_bytes();
    assert(bytes@[index as int] == s@[index as int] as u8);
    bytes[index] as char
}


/// The longest prefix that all the strings share; the empty string when
/// there are none.
pub fn longest_common_prefix(strs: Vec<String>) -> (r: String)
    requires
        forall|i: int| 0 <= i < strs.len() ==> (#[trigger] strs[i]).is_ascii(),
    ensures
        strs.len() == 0 ==> r@ == Seq::<char>::empty(),
        strs.len() > 0 ==> {
            &&& r@ == strs[0]@.subrange(0, r@.len() as int)
            &&& is_common_prefix(views(strs@), r@.len() as int)
            &&& !is_common_prefix(views(strs@), r@.len() + 1int)
        },
{
    if strs.len() == 0 {
        return String::new();
    }
    let ghost ss = views(strs@);
    proof {
        is_ascii_chars_encode_utf8(strs[0]@);
    }
    let first_len = strs[0].as_str().as_bytes().len();
    assert(first_len == strs[0]@.len());
    let mut index: usize = 0;
    while index < first_len
        invariant
            strs.len() > 0,
            ss == views(strs@),
            first_len == ss[0].len(),
            forall|i: int| 0 <= i < strs.len() ==> (#[trigger] strs[i]).is_ascii(),
            index <= first_len,
            is_common_prefix(ss, index as int),
        ensures
            index <= first_len,
            is_common_prefix(ss, index as int),
            index == first_len || !is_common_prefix(ss, index + 1),
        decreases first_len - index,
    {
        assert(strs[0].is_ascii() && ss[0] == strs[0]@);
        proof {
            is_ascii_chars_encode_utf8(strs[0]@);
        }
        if string_is_short(&strs[0], index) {
            break;
        }
        let test_char = char_at_ascii_string(&strs[0], index);
        let mut extends = true;
        let mut k: usize = 1;
        while k < strs.len()
            invariant
                1 <= k <= strs.len(),
                ss == views(strs@),
                forall|i: int| 0 <= i < strs.len() ==> (#[trigger] strs[i]).is_ascii(),
                index < ss[0].len(),
                test_char == ss[0][index as int],
                extends ==> forall|i: int|
                    0 <= i < k ==> index < (#[trigger] ss[i]).len() && ss[i][index as int] == test_char,
                !extends ==> !is_common_prefix(ss, index + 1),
            ensures
                extends ==> forall|i: int|
                    0 <= i < strs.len() ==> index < (#[trigger] ss[i]).len() && ss[i][index as int] == test_char,
                !extends ==> !is_common_prefix(ss, index + 1),
            decreases strs.len() - k,
        {
            assert(strs[k as int].is_ascii() && ss[k as int] == strs[k as int]@);
            proof {
                is_ascii_chars_encode_utf8(strs[k as int]@);
            }
            if string_is_short(&strs[k], index) {
                extends = false;
                break;
            }
            let c = char_at_ascii_string(&strs[k], index);
            if c != test_char {
                extends = false;
                break;
            }
            k += 1;
        }
        if !extends {
            break;
        }
        index += 1;
    }
    let result = strs[0].as_str().substring_ascii(0, index);
    String::from_str(result)
}

} // verus!
