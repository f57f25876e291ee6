//! A short, NUL-terminated byte string stored inline.

use vstd::prelude::*;
use vstd::string::StringSliceAdditionalSpecFns;

verus! {

/// Fixed size of [`SmallCStr`] including the trailing `\0` byte.
pub const SMALL_STR_SIZE: usize = 16;

/// `src` fits a [`SmallCStr`]: it leaves room for the terminator and holds no `\0`.
pub open spec fn fits_small_cstr(src: Seq<u8>) -> bool {
    &&& src.len() < SMALL_STR_SIZE
    &&& forall|i: int| 0 <= i < src.len() ==> src[i] != 0u8
}

/// The stored bytes for `src`: `src` followed by `\0` up to the fixed size.
pub open spec fn padded(src: Seq<u8>) -> Seq<u8> {
    src + Seq::new((SMALL_STR_SIZE - src.len()) as nat, |_i: int| 0u8)
}

/// Small C string on the stack with fixed size [`SMALL_STR_SIZE`].
#[derive(Debug, PartialEq)]
pub struct SmallCStr([u8; SMALL_STR_SIZE]);

impl View for SmallCStr {
    type V = Seq<u8>;

    closed spec fn view(&self) -> Seq<u8> {
        self.0@
    }
}

impl SmallCStr {
    /// Create a new C string from `src`.
    /// Returns [`None`] if `src` exceeds the fixed size or contains any `\0` bytes.
    pub fn new(src: &[u8]) -> (r: Option<SmallCStr>)
        ensures
            r is Some <==> fits_small_cstr(src@),
            r matches Some(s) ==> s@ == padded(src@),
    {
        let len = src.len();
        if len > SMALL_STR_SIZE - 1 {
            return None;
        }
        let mut dest: [u8; SMALL_STR_SIZE] = [0u8; SMALL_STR_SIZE];
        let mut i: usize = 0;
        while i < len
            invariant
                len == src@.len(),
                len < SMALL_STR_SIZE,
                i <= len,
                dest@.len() == SMALL_STR_SIZE,
                forall|j: int| 0 <= j < i ==> src@[j] != 0u8 && dest@[j] == src@[j],
                forall|j: int| i <= j < SMALL_STR_SIZE ==> dest@[j] == 0u8,
            decreases len - i,
        {
            if src[i] == 0u8 {
                return None;
            }
            dest[i] = src[i];
            i = i + 1;
        }
        let r = SmallCStr(dest);
        assert(r@ =~= padded(src@));
        Some(r)
    }

    /// The stored bytes, terminator and padding included.
    pub fn as_bytes(&self) -> (r: &[u8; SMALL_STR_SIZE])
        ensures
            r@ == self@,
    {
        &self.0
    }
}

impl<'a> TryFrom<&'a str> for SmallCStr {
    type Error = ();

    fn try_from(value: &'a str) -> (r: Result<SmallCStr, ()>) {
        match SmallCStr::new(value.as_bytes()) {
            Some(s) => {
                proof {
                    let c = choose|c: SmallCStr| c@ == padded(value.spec_bytes());
                    lemma_view_determines(s, c);
                }
                Ok(s)
            },
            None => Err(()),
        }
    }
}

impl<'a> vstd::std_specs::convert::TryFromSpecImpl<&'a str> for SmallCStr {
    open spec fn obeys_try_from_spec() -> bool {
        true
    }

    open spec fn try_from_spec(value: &'a str) -> Result<SmallCStr, ()> {
        if fits_small_cstr(value.spec_bytes()) {
            Ok(choose|c: SmallCStr| c@ == padded(value.spec_bytes()))
        } else {
            Err(())
        }
    }
}

/// Two small strings with the same bytes are the same value.
pub proof fn lemma_view_determines(a: SmallCStr, b: SmallCStr)
    requires
        a@ == b@,
    ensures
        a == b,
{
    assert(a.0 =~= b.0);
}

} // verus!
