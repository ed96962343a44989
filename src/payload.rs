//! Values that travel through a channel as a fixed number of bytes.

use vstd::bytes::{
    lemma_auto_spec_u32_to_from_le_bytes, lemma_auto_spec_u64_to_from_le_bytes,
    spec_u32_from_le_bytes, spec_u32_to_le_bytes, spec_u64_to_le_bytes,
    u32_from_le_bytes, u32_to_le_bytes, u64_from_le_bytes, u64_to_le_bytes,
};
use vstd::prelude::*;
use vstd::slice::slice_subrange;

verus! {

/// A value with a fixed-size byte image from which it can be rebuilt.
///
/// The image of a value is `width()` bytes long, and no two values share an
/// image, so the receiving side rebuilds exactly the value that was sent.
pub trait Payload: Sized {
    /// Number of bytes of every image.
    spec fn width() -> nat;

    /// The bytes that stand for this value in the slot.
    spec fn image(&self) -> Seq<u8>;

    /// Every image is `width()` bytes long, and the image determines the value.
    proof fn lemma_image(&self)
        ensures
            self.image().len() == Self::width(),
            forall|x: Self| #[trigger] x.image() == self.image() ==> x == *self,
    ;

    fn byte_width() -> (r: usize)
        requires
            Self::width() <= usize::MAX,
        ensures
            r == Self::width(),
    ;

    fn encode(&self) -> (r: Vec<u8>)
        ensures
            r@ == self.image(),
    ;

    fn decode(bytes: &[u8]) -> (r: Self)
        requires
            bytes@.len() == Self::width(),
        ensures
            forall|x: Self| #[trigger] x.image() == bytes@ ==> r == x,
    ;
}

impl Payload for u8 {
    open spec fn width() -> nat {
        1
    }

    open spec fn image(&self) -> Seq<u8> {
        seq![*self]
    }

    proof fn lemma_image(&self) {
        assert forall|x: u8| #[trigger] x.image() == self.image() implies x == *self by {
            assert(x.image()[0] == x);
        }
    }

    fn byte_width() -> (r: usize) {
        1
    }

    fn encode(&self) -> (r: Vec<u8>) {
        let mut v: Vec<u8> = Vec::new();
        v.push(*self);
        assert(v@ =~= seq![*self]);
        v
    }

    fn decode(bytes: &[u8]) -> (r: u8) {
        let r = bytes[0];
        assert forall|x: u8| #[trigger] x.image() == bytes@ implies r == x by {
            assert(x.image()[0] == x);
        }
        r
    }
}

impl Payload for u32 {
    open spec fn width() -> nat {
        4
    }

    open spec fn image(&self) -> Seq<u8> {
        spec_u32_to_le_bytes(*self)
    }

    proof fn lemma_image(&self) {
        lemma_auto_spec_u32_to_from_le_bytes();
        assert forall|x: u32| #[trigger] x.image() == self.image() implies x == *self by {
            assert(x.image() == spec_u32_to_le_bytes(x));
            assert(self.image() == spec_u32_to_le_bytes(*self));
        }
    }

    fn byte_width() -> (r: usize) {
        4
    }

    fn encode(&self) -> (r: Vec<u8>) {
        u32_to_le_bytes(*self)
    }

    fn decode(bytes: &[u8]) -> (r: u32) {
        proof {
            lemma_auto_spec_u32_to_from_le_bytes();
        }
        u32_from_le_bytes(bytes)
    }
}

impl Payload for u64 {
    open spec fn width() -> nat {
        8
    }

    open spec fn image(&self) -> Seq<u8> {
        spec_u64_to_le_bytes(*self)
    }

    proof fn lemma_image(&self) {
        lemma_auto_spec_u64_to_from_le_bytes();
        assert forall|x: u64| #[trigger] x.image() == self.image() implies x == *self by {
            assert(x.image() == spec_u64_to_le_bytes(x));
            assert(self.image() == spec_u64_to_le_bytes(*self));
        }
    }

    fn byte_width() -> (r: usize) {
        8
    }

    fn encode(&self) -> (r: Vec<u8>) {
        u64_to_le_bytes(*self)
    }

    fn decode(bytes: &[u8]) -> (r: u64) {
        proof {
            lemma_auto_spec_u64_to_from_le_bytes();
        }
        u64_from_le_bytes(bytes)
    }
}

/// A `usize` travels as the eight bytes of its `u64` value.
impl Payload for usize {
    open spec fn width() -> nat {
        8
    }

    open spec fn image(&self) -> Seq<u8> {
        spec_u64_to_le_bytes(*self as u64)
    }

    proof fn lemma_image(&self) {
        lemma_auto_spec_u64_to_from_le_bytes();
        assert forall|x: usize| #[trigger] x.image() == self.image() implies x == *self by {
            assert(x.image() == spec_u64_to_le_bytes(x as u64));
            assert(self.image() == spec_u64_to_le_bytes(*self as u64));
        }
    }

    fn byte_width() -> (r: usize) {
        8
    }

    fn encode(&self) -> (r: Vec<u8>) {
        u64_to_le_bytes(*self as u64)
    }

    fn decode(bytes: &[u8]) -> (r: usize) {
        proof {
            lemma_auto_spec_u64_to_from_le_bytes();
        }
        let w = u64_from_le_bytes(bytes);
        let r = w as usize;
        assert forall|x: usize| #[trigger] x.image() == bytes@ implies r == x by {
            assert(w == x as u64);
        }
        r
    }
}

/// An `i32` travels as the four bytes of its two's-complement bits.
impl Payload for i32 {
    open spec fn width() -> nat {
        4
    }

    open spec fn image(&self) -> Seq<u8> {
        spec_u32_to_le_bytes(#[verifier::truncate] (*self as u32))
    }

    proof fn lemma_image(&self) {
        lemma_auto_spec_u32_to_from_le_bytes();
        assert forall|x: i32| #[trigger] x.image() == self.image() implies x == *self by {
            let a = #[verifier::truncate] (x as u32);
            let b = #[verifier::truncate] (*self as u32);
            assert(x.image() == spec_u32_to_le_bytes(a));
            assert(self.image() == spec_u32_to_le_bytes(b));
            assert(spec_u32_from_le_bytes(spec_u32_to_le_bytes(a)) == a);
            assert(spec_u32_from_le_bytes(spec_u32_to_le_bytes(b)) == b);
            let y = *self;
            assert(#[verifier::truncate] (x as u32) == #[verifier::truncate] (y as u32) ==> x == y) by (bit_vector);
        }
    }

    fn byte_width() -> (r: usize) {
        4
    }

    fn encode(&self) -> (r: Vec<u8>) {
        u32_to_le_bytes(*self as u32)
    }

    fn decode(bytes: &[u8]) -> (r: i32) {
        proof {
            lemma_auto_spec_u32_to_from_le_bytes();
        }
        let w = u32_from_le_bytes(bytes);
        let r = w as i32;
        assert forall|x: i32| #[trigger] x.image() == bytes@ implies r == x by {
            assert(w == spec_u32_from_le_bytes(x.image()));
            assert(w == #[verifier::truncate] (x as u32) ==> #[verifier::truncate] (w as i32) == x) by (bit_vector);
        }
        r
    }
}

/// The images of the values of `s`, one after the other.
pub open spec fn images_of<E: Payload>(s: Seq<E>) -> Seq<u8>
    decreases s.len(),
{
    if s.len() == 0 {
        Seq::empty()
    } else {
        images_of(s.drop_last()) + s.last().image()
    }
}

proof fn lemma_images_len<E: Payload>(s: Seq<E>)
    ensures
        images_of(s).len() == s.len() * E::width(),
    decreases s.len(),
{
    if s.len() > 0 {
        lemma_images_len(s.drop_last());
        s.last().lemma_image();
        let n = s.len() as int;
        let w = E::width() as int;
        assert((n - 1) * w + w == n * w) by (nonlinear_arith);
    }
}

/// The `j`-th run of `E::width()` bytes of `images_of(s)` is the image of `s[j]`.
proof fn lemma_images_chunk<E: Payload>(s: Seq<E>, j: int)
    requires
        0 <= j < s.len(),
    ensures
        (j + 1) * E::width() <= s.len() * E::width(),
        images_of(s).subrange(j * E::width(), (j + 1) * E::width()) == s[j].image(),
    decreases s.len(),
{
    let n = s.len() as int;
    let w = E::width() as int;
    let prefix = s.drop_last();
    lemma_images_len(s);
    lemma_images_len(prefix);
    s.last().lemma_image();
    assert(j * w + w == (j + 1) * w) by (nonlinear_arith);
    assert((j + 1) * w <= n * w) by (nonlinear_arith)
        requires
            j + 1 <= n,
            w >= 0,
    ;
    if j < n - 1 {
        lemma_images_chunk(prefix, j);
        assert(images_of(s).subrange(j * w, (j + 1) * w) =~= images_of(prefix).subrange(
            j * w,
            (j + 1) * w,
        ));
    } else {
        assert(j * w == (n - 1) * w);
        assert(images_of(s).subrange(j * w, (j + 1) * w) =~= s.last().image());
    }
}

fn append_bytes(out: &mut Vec<u8>, bytes: &Vec<u8>)
    ensures
        final(out)@ == old(out)@ + bytes@,
{
    let mut i: usize = 0;
    while i < bytes.len()
        invariant
            i <= bytes@.len(),
            out@ == old(out)@ + bytes@.take(i as int),
        decreases bytes@.len() - i,
    {
        out.push(bytes[i]);
        i = i + 1;
        assert(out@ =~= old(out)@ + bytes@.take(i as int));
    }
    assert(bytes@.take(i as int) =~= bytes@);
}

/// An array travels as the images of its elements, in order.
impl<E: Payload + Copy + Default, const N: usize> Payload for [E; N] {
    open spec fn width() -> nat {
        N as nat * E::width()
    }

    open spec fn image(&self) -> Seq<u8> {
        images_of(self@)
    }

    proof fn lemma_image(&self) {
        lemma_images_len(self@);
        assert forall|x: [E; N]| #[trigger] x.image() == self.image() implies x == *self by {
            assert forall|j: int| 0 <= j < N implies x@[j] == self@[j] by {
                lemma_images_chunk(x@, j);
                lemma_images_chunk(self@, j);
                self@[j].lemma_image();
            }
            assert(x@ =~= self@);
            assert(x =~= *self);
        }
    }

    fn byte_width() -> (r: usize) {
        if N == 0 {
            0
        } else {
            assert(E::width() <= N as nat * E::width()) by (nonlinear_arith)
                requires
                    N >= 1,
            ;
            let w = E::byte_width();
            N * w
        }
    }

    fn encode(&self) -> (r: Vec<u8>) {
        let mut out: Vec<u8> = Vec::new();
        let mut i: usize = 0;
        while i < N
            invariant
                i <= N,
                out@ == images_of(self@.take(i as int)),
            decreases N - i,
        {
            let bytes = self[i].encode();
            append_bytes(&mut out, &bytes);
            assert(self@.take(i + 1).drop_last() =~= self@.take(i as int));
            i = i + 1;
        }
        assert(self@.take(N as int) =~= self@);
        out
    }

    fn decode(bytes: &[u8]) -> (r: [E; N]) {
        let ghost w = E::width() as int;
        let mut arr: [E; N] = [E::default(); N];
        if N == 0 {
            assert forall|x: [E; N]| #[trigger] x.image() == bytes@ implies arr == x by {
                assert(x@ =~= arr@);
                assert(x =~= arr);
            }
            return arr;
        }
        assert(w <= N * w) by (nonlinear_arith)
            requires
                N >= 1,
                w >= 0,
        ;
        let total = bytes.len();
        let width = E::byte_width();
        let mut i: usize = 0;
        let mut start: usize = 0;
        while i < N
            invariant
                i <= N,
                N >= 1,
                w == E::width(),
                width == w,
                bytes@.len() == N * w,
                total == bytes@.len(),
                start == i * w,
                forall|j: int, x: E|
                    0 <= j < i && #[trigger] x.image() == bytes@.subrange(j * w, (j + 1) * w) ==> #[trigger] arr@[j] == x,
            decreases N - i,
        {
            assert((i + 1) * w <= N * w && start + w == (i + 1) * w) by (nonlinear_arith)
                requires
                    i < N,
                    w >= 0,
                    start == i * w,
            ;
            let end = start + width;
            let v = E::decode(slice_subrange(bytes, start, end));
            arr[i] = v;
            i = i + 1;
            start = end;
        }
        assert forall|x: [E; N]| #[trigger] x.image() == bytes@ implies arr == x by {
            assert forall|j: int| 0 <= j < N implies x@[j] == arr@[j] by {
                lemma_images_chunk(x@, j);
            }
            assert(x@ =~= arr@);
            assert(x =~= arr);
        }
        arr
    }
}

/// A triple travels as the images of its parts, in order.
impl<A: Payload, B: Payload, C: Payload> Payload for (A, B, C) {
    open spec fn width() -> nat {
        A::width() + B::width() + C::width()
    }

    open spec fn image(&self) -> Seq<u8> {
        self.0.image() + self.1.image() + self.2.image()
    }

    proof fn lemma_image(&self) {
        self.0.lemma_image();
        self.1.lemma_image();
        self.2.lemma_image();
        let wa = A::width() as int;
        let wb = B::width() as int;
        assert forall|x: (A, B, C)| #[trigger] x.image() == self.image() implies x == *self by {
            x.0.lemma_image();
            x.1.lemma_image();
            x.2.lemma_image();
            let img = self.image();
            assert(x.0.image() =~= img.subrange(0, wa));
            assert(self.0.image() =~= img.subrange(0, wa));
            assert(x.1.image() =~= img.subrange(wa, wa + wb));
            assert(self.1.image() =~= img.subrange(wa, wa + wb));
            assert(x.2.image() =~= img.subrange(wa + wb, img.len() as int));
            assert(self.2.image() =~= img.subrange(wa + wb, img.len() as int));
        }
    }

    fn byte_width() -> (r: usize) {
        A::byte_width() + B::byte_width() + C::byte_width()
    }

    fn encode(&self) -> (r: Vec<u8>) {
        let mut out = self.0.encode();
        let b = self.1.encode();
        let c = self.2.encode();
        append_bytes(&mut out, &b);
        append_bytes(&mut out, &c);
        out
    }

    fn decode(bytes: &[u8]) -> (r: (A, B, C)) {
        let total = bytes.len();
        let wa = A::byte_width();
        let wb = B::byte_width();
        let a = A::decode(slice_subrange(bytes, 0, wa));
        let b = B::decode(slice_subrange(bytes, wa, wa + wb));
        let c = C::decode(slice_subrange(bytes, wa + wb, total));
        let r = (a, b, c);
        assert forall|x: (A, B, C)| #[trigger] x.image() == bytes@ implies r == x by {
            x.0.lemma_image();
            x.1.lemma_image();
            x.2.lemma_image();
            assert(x.0.image() =~= bytes@.subrange(0, wa as int));
            assert(x.1.image() =~= bytes@.subrange(wa as int, wa + wb));
            assert(x.2.image() =~= bytes@.subrange(wa + wb, bytes@.len() as int));
        }
        r
    }
}

} // verus!
