use vstd::prelude::*;

verus! {

/// A fixed-length set of bits, used to mark which virtual nodes of a
/// table's key space a change-log shard covers.
#[derive(Clone, Debug, PartialEq)]
pub struct Bitmap {
    pub bits: Vec<bool>,
}

/// Wire form of a buffer: a compression tag and its body.
#[derive(Clone, Debug, PartialEq)]
pub struct PbBuffer {
    pub compression: i32,
    pub body: Vec<u8>,
}

/// The body is stored as it is.
pub const COMPRESSION_NONE: i32 = 0;

/// Bit `j` of `b`, least significant first.
pub open spec fn bit_of(b: u8, j: nat) -> bool {
    ((b >> (j as u8)) & 1u8) == 1u8
}

pub open spec fn packed_len(n: nat) -> nat {
    (n + 7) / 8
}

/// The wire body of `bits`: first `len % 8`, then the bits packed eight to
/// a byte, least significant bit first, the unused high bits of the last
/// byte clear.
pub open spec fn is_bitmap_body(bits: Seq<bool>, body: Seq<u8>) -> bool {
    &&& body.len() == 1 + packed_len(bits.len())
    &&& body[0] == (bits.len() % 8) as u8
    &&& forall|i: int, j: int|
        #![trigger body[1 + i], bit_of(body[1 + i], j as nat)]
        0 <= i < packed_len(bits.len()) && 0 <= j < 8 ==> bit_of(body[1 + i], j as nat) == (8
            * i + j < bits.len() && bits[8 * i + j])
}

/// Whether `body` is the wire body of some bitmap.
pub open spec fn body_well_formed(body: Seq<u8>) -> bool {
    &&& body.len() >= 1
    &&& body[0] < 8
    &&& (body.len() == 1 ==> body[0] == 0)
    &&& body.len() <= usize::MAX / 8
}

/// Number of bits that a well-formed `body` holds.
pub open spec fn body_num_bits(body: Seq<u8>) -> nat {
    if body[0] == 0 {
        ((body.len() - 1) * 8) as nat
    } else {
        ((body.len() - 2) * 8 + body[0]) as nat
    }
}

/// The bits that a well-formed `body` holds.
pub open spec fn bits_of_body(body: Seq<u8>) -> Seq<bool> {
    Seq::new(body_num_bits(body), |i: int| bit_of(body[1 + i / 8], (i % 8) as nat))
}

proof fn lemma_set_bit(b: u8, j: u8, k: u8)
    requires
        j < 8,
        k < 8,
    ensures
        (((b | (1u8 << j)) >> k) & 1u8 == 1u8) == (k == j || ((b >> k) & 1u8) == 1u8),
{
    assert((((b | (1u8 << j)) >> k) & 1u8 == 1u8) == (k == j || ((b >> k) & 1u8) == 1u8))
        by (bit_vector)
        requires
            j < 8,
            k < 8,
    ;
}

proof fn lemma_zero_bits(k: u8)
    requires
        k < 8,
    ensures
        ((0u8 >> k) & 1u8) != 1u8,
{
    assert(((0u8 >> k) & 1u8) != 1u8) by (bit_vector);
}

fn get_bit(b: u8, j: u8) -> (r: bool)
    requires
        j < 8,
    ensures
        r == bit_of(b, j as nat),
{
    ((b >> j) & 1u8) == 1u8
}

/// Packs `bits[8 * i .. 8 * i + 8]` into one byte.
fn pack_byte(bits: &Vec<bool>, i: usize) -> (r: u8)
    requires
        8 * i < bits@.len(),
        bits@.len() <= usize::MAX / 8,
    ensures
        forall|j: int|
            0 <= j < 8 ==> #[trigger] bit_of(r, j as nat) == (8 * i + j < bits@.len() && bits@[8
                * i + j]),
{
    let mut b: u8 = 0;
    let mut j: u8 = 0;
    assert forall|k: int| 0 <= k < 8 implies !#[trigger] bit_of(b, k as nat) by {
        lemma_zero_bits(k as u8);
    }
    while j < 8
        invariant
            j <= 8,
            8 * i < bits@.len(),
            bits@.len() <= usize::MAX / 8,
            forall|k: int|
                0 <= k < j ==> #[trigger] bit_of(b, k as nat) == (8 * i + k < bits@.len()
                    && bits@[8 * i + k]),
            forall|k: int| j <= k < 8 ==> !#[trigger] bit_of(b, k as nat),
        decreases 8 - j,
    {
        let pos = 8 * i + j as usize;
        if pos < bits.len() && bits[pos] {
            let old_b = b;
            b = b | (1u8 << j);
            assert forall|k: int| 0 <= k < 8 implies #[trigger] bit_of(b, k as nat) == (k == j
                || bit_of(old_b, k as nat)) by {
                lemma_set_bit(old_b, j, k as u8);
            }
        }
        j = j + 1;
    }
    b
}

impl Bitmap {
    pub open spec fn view(&self) -> Seq<bool> {
        self.bits@
    }

    /// The wire form: see [`is_bitmap_body`].
    pub fn to_protobuf(&self) -> (r: PbBuffer)
        requires
            self.bits@.len() <= usize::MAX / 8,
        ensures
            r.compression == COMPRESSION_NONE,
            is_bitmap_body(self.bits@, r.body@),
    {
        let n = self.bits.len();
        let nbytes = (n + 7) / 8;
        let mut body: Vec<u8> = Vec::new();
        body.push((n % 8) as u8);
        let mut i: usize = 0;
        while i < nbytes
            invariant
                n == self.bits@.len(),
                nbytes == packed_len(n as nat),
                n <= usize::MAX / 8,
                i <= nbytes,
                body@.len() == 1 + i,
                body@[0] == (n % 8) as u8,
                forall|p: int, j: int|
                    #![trigger body@[1 + p], bit_of(body@[1 + p], j as nat)]
                    0 <= p < i && 0 <= j < 8 ==> bit_of(body@[1 + p], j as nat) == (8 * p + j < n
                        && self.bits@[8 * p + j]),
            decreases nbytes - i,
        {
            let b = pack_byte(&self.bits, i);
            body.push(b);
            i = i + 1;
        }
        PbBuffer { compression: COMPRESSION_NONE, body }
    }

    /// Reads a bitmap back from its wire form; `None` when the buffer is not
    /// an uncompressed, well-formed bitmap body.
    pub fn from_protobuf(buf: &PbBuffer) -> (r: Option<Bitmap>)
        ensures
            r is Some <==> (buf.compression == COMPRESSION_NONE && body_well_formed(buf.body@)),
            r matches Some(bm) ==> bm.bits@ == bits_of_body(buf.body@),
    {
        if buf.compression != COMPRESSION_NONE {
            return None;
        }
        let body = &buf.body;
        if body.len() == 0 || body[0] >= 8 || (body.len() == 1 && body[0] != 0) || body.len()
            > usize::MAX / 8 {
            return None;
        }
        let n: usize = if body[0] == 0 {
            (body.len() - 1) * 8
        } else {
            (body.len() - 2) * 8 + body[0] as usize
        };
        assert(n == body_num_bits(body@)) by (nonlinear_arith)
            requires
                body_well_formed(body@),
                n == (if body@[0] == 0 { ((body@.len() - 1) * 8) as nat } else { ((body@.len()
                    - 2) * 8 + body@[0]) as nat }),
        {}
        let mut bits: Vec<bool> = Vec::new();
        let mut i: usize = 0;
        while i < n
            invariant
                n == body_num_bits(body@),
                body_well_formed(body@),
                i <= n,
                bits@ == bits_of_body(body@).subrange(0, i as int),
            decreases n - i,
        {
            assert(1 + i / 8 < body@.len()) by (nonlinear_arith)
                requires
                    i < n,
                    n == body_num_bits(body@),
                    body_well_formed(body@),
            {}
            let b = get_bit(body[1 + i / 8], (i % 8) as u8);
            bits.push(b);
            i = i + 1;
            assert(bits@ =~= bits_of_body(body@).subrange(0, i as int));
        }
        assert(bits@ =~= bits_of_body(body@));
        Some(Bitmap { bits })
    }
}

/// Decoding the wire form of a bitmap gives the bitmap back.
pub proof fn lemma_bitmap_round_trip(bits: Seq<bool>, body: Seq<u8>)
    requires
        is_bitmap_body(bits, body),
        bits.len() <= usize::MAX / 8,
    ensures
        body_well_formed(body),
        bits_of_body(body) == bits,
{
    let n = bits.len();
    assert(body_num_bits(body) == n && body.len() <= usize::MAX / 8) by (nonlinear_arith)
        requires
            body.len() == 1 + (n + 7) / 8,
            body[0] == (n % 8) as u8,
            n <= usize::MAX / 8,
    {}
    assert forall|i: int| 0 <= i < n implies #[trigger] bits_of_body(body)[i] == bits[i] by {
        let p = i / 8;
        let j = i % 8;
        assert(0 <= p < packed_len(n) && 0 <= j < 8 && 8 * p + j == i) by (nonlinear_arith)
            requires
                0 <= i < n,
                p == i / 8,
                j == i % 8,
        {}
        assert(bit_of(body[1 + p], j as nat) == (8 * p + j < n && bits[8 * p + j]));
    }
    assert(bits_of_body(body) =~= bits);
}

} // verus!
