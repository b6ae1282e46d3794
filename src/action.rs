//! Actions: their types, their public inputs, and the wire encoding of both.

use vstd::prelude::*;
use vstd::utf8::encode_utf8;
use vstd::string::StringSliceAdditionalSpecFns;
use crate::bytes::{hex_encode, hex_lower, hex_upper_min2, hex_upper_padded, le64, limbs_le, push_limbs_le, push_u64_le};

verus! {

/// The dummy action that leads the actions of every step.
pub const ZA_DUMMY: u64 = 0xDEADBEEFDEADBEEF;
/// Does nothing but have the proof verified.
pub const ZA_NULL: u64 = 0x0;
pub const ZA_MINTFT: u64 = 0x1;
pub const ZA_MINTNFT: u64 = 0x2;
pub const ZA_MINTAUTH: u64 = 0x3;
pub const ZA_TRANSFERFT: u64 = 0x4;
pub const ZA_TRANSFERNFT: u64 = 0x5;
pub const ZA_BURNFT: u64 = 0x6;
pub const ZA_BURNFT2: u64 = 0x7;
pub const ZA_BURNNFT: u64 = 0x8;
pub const ZA_BURNAUTH: u64 = 0x9;

/// The public inputs of an action. Field elements are held as the four 64-bit limbs that
/// go on the wire; `rk` is held as the affine coordinates of the randomized key.
#[derive(Clone, Copy, Debug)]
pub struct Instance {
    pub anchor: [u64; 4],
    pub nf: [u64; 4],
    pub rk_x: [u64; 4],
    pub rk_y: [u64; 4],
    pub nft: bool,
    pub b_d1: u64,
    pub b_d2: u64,
    pub b_sc: u64,
    pub c_d1: u64,
    pub cmb: [u64; 4],
    pub cmc: [u64; 4],
}

/// What a spent note contributes to the public inputs: the anchor its path leads to, its
/// nullifier, and the randomized spend key.
#[derive(Clone, Copy, Debug)]
pub struct SpendPublic {
    pub anchor: [u64; 4],
    pub nf: [u64; 4],
    pub rk_x: [u64; 4],
    pub rk_y: [u64; 4],
}

/// What an output note may contribute to the public inputs: its values and its
/// extracted commitment.
#[derive(Clone, Copy, Debug)]
pub struct OutputPublic {
    pub d1: u64,
    pub d2: u64,
    pub sc: u64,
    pub cm: [u64; 4],
}

/// An action in the form published on the ledger: its type, its public inputs and a memo.
#[derive(Clone, Debug)]
pub struct ZAction {
    pub za_type: u64,
    pub ins: Instance,
    pub memo: String,
}

pub open spec fn zero_limbs() -> [u64; 4] {
    [0u64, 0u64, 0u64, 0u64]
}

/// The action types whose notes are non-fungible.
pub open spec fn is_nft_type(t: u64) -> bool {
    t == ZA_MINTNFT || t == ZA_TRANSFERNFT || t == ZA_BURNNFT || t == ZA_MINTAUTH || t == ZA_BURNAUTH
}

/// The action types that reveal the values of output `b`.
pub open spec fn reveals_b(t: u64) -> bool {
    t != ZA_TRANSFERFT && t != ZA_TRANSFERNFT
}

/// The action types that commit output `b` to the tree.
pub open spec fn commits_b(t: u64) -> bool {
    t != ZA_BURNFT && t != ZA_BURNFT2 && t != ZA_BURNNFT
}

/// The public inputs of an action of type `t`: what is not given, or must stay private
/// for the type, is zero.
pub open spec fn instance_of(t: u64, spend: Option<SpendPublic>, b: Option<OutputPublic>, c: Option<OutputPublic>) -> Instance {
    Instance {
        anchor: if spend is Some { spend->0.anchor } else { zero_limbs() },
        nf: if spend is Some { spend->0.nf } else { zero_limbs() },
        rk_x: if spend is Some { spend->0.rk_x } else { zero_limbs() },
        rk_y: if spend is Some { spend->0.rk_y } else { zero_limbs() },
        nft: is_nft_type(t),
        b_d1: if b is Some && reveals_b(t) { b->0.d1 } else { 0 },
        b_d2: if b is Some && reveals_b(t) { b->0.d2 } else { 0 },
        b_sc: if b is Some && reveals_b(t) { b->0.sc } else { 0 },
        c_d1: if c is Some && t == ZA_BURNFT2 { c->0.d1 } else { 0 },
        cmb: if b is Some && commits_b(t) { b->0.cm } else { zero_limbs() },
        cmc: if c is Some && (t == ZA_TRANSFERFT || t == ZA_BURNFT) { c->0.cm } else { zero_limbs() },
    }
}

/// The fixed-size part of a serialized action: type, then the public inputs.
pub open spec fn zaction_fixed_bytes(t: u64, ins: Instance) -> Seq<u8> {
    le64(t) + limbs_le(ins.anchor) + limbs_le(ins.nf) + limbs_le(ins.rk_x) + limbs_le(ins.rk_y)
        + seq![if ins.nft { 1u8 } else { 0u8 }] + le64(ins.b_d1) + le64(ins.b_d2) + le64(ins.b_sc)
        + le64(ins.c_d1) + limbs_le(ins.cmb) + limbs_le(ins.cmc)
}

/// The memo bytes that go on the wire: at most the first 255.
pub open spec fn wire_memo(m: Seq<u8>) -> Seq<u8> {
    if m.len() >= 255 {
        m.subrange(0, 255)
    } else {
        m
    }
}

/// The hexadecimal wire form of an action: the fixed part, the memo length in two
/// upper-case digits, then the memo.
pub open spec fn zaction_hex(t: u64, ins: Instance, memo: Seq<char>) -> Seq<char> {
    hex_lower(zaction_fixed_bytes(t, ins)) + hex_upper_min2(wire_memo(encode_utf8(memo)).len())
        + hex_lower(wire_memo(encode_utf8(memo)))
}

impl Instance {
    /// Constructs an instance from its constituent parts.
    pub fn from_parts(
        anchor: [u64; 4],
        nf: [u64; 4],
        rk_x: [u64; 4],
        rk_y: [u64; 4],
        nft: bool,
        b_d1: u64,
        b_d2: u64,
        b_sc: u64,
        c_d1: u64,
        cmb: [u64; 4],
        cmc: [u64; 4],
    ) -> (r: Self)
        ensures
            r == (Instance { anchor, nf, rk_x, rk_y, nft, b_d1, b_d2, b_sc, c_d1, cmb, cmc }),
    {
        Instance { anchor, nf, rk_x, rk_y, nft, b_d1, b_d2, b_sc, c_d1, cmb, cmc }
    }

    /// The public inputs of an action of type `za_type` with the given spent note and
    /// outputs. Fields that the type keeps private are zero; a burn reveals the values of
    /// output `b` and does not commit it; only `BURNFT2` reveals the quantity of `c`.
    pub fn for_action(
        za_type: u64,
        spend: Option<SpendPublic>,
        note_b: Option<OutputPublic>,
        note_c: Option<OutputPublic>,
    ) -> (r: Self)
        ensures
            r == instance_of(za_type, spend, note_b, note_c),
    {
        let zero: [u64; 4] = [0, 0, 0, 0];
        let mut ins = Instance {
            anchor: zero,
            nf: zero,
            rk_x: zero,
            rk_y: zero,
            nft: za_type == ZA_MINTNFT || za_type == ZA_TRANSFERNFT || za_type == ZA_BURNNFT
                || za_type == ZA_MINTAUTH || za_type == ZA_BURNAUTH,
            b_d1: 0,
            b_d2: 0,
            b_sc: 0,
            c_d1: 0,
            cmb: zero,
            cmc: zero,
        };
        assert(zero == zero_limbs());
        if let Some(a) = spend {
            ins.anchor = a.anchor;
            ins.nf = a.nf;
            ins.rk_x = a.rk_x;
            ins.rk_y = a.rk_y;
        }
        if let Some(b) = note_b {
            if za_type != ZA_TRANSFERFT && za_type != ZA_TRANSFERNFT {
                ins.b_d1 = b.d1;
                ins.b_d2 = b.d2;
                ins.b_sc = b.sc;
            }
            if za_type != ZA_BURNFT && za_type != ZA_BURNFT2 && za_type != ZA_BURNNFT {
                ins.cmb = b.cm;
            }
        }
        if let Some(c) = note_c {
            if za_type == ZA_BURNFT2 {
                ins.c_d1 = c.d1;
            }
            if za_type == ZA_TRANSFERFT || za_type == ZA_BURNFT {
                ins.cmc = c.cm;
            }
        }
        ins
    }
}

/// Which outputs of an action are published as encrypted notes.
#[derive(Clone, Copy, Debug)]
pub struct EncryptedOutputs {
    pub b: bool,
    pub c: bool,
}

/// The outputs of an action of type `za_type` that are published encrypted: `b` for
/// every type but the two authorization types (a burn sends it to a dummy recipient, for
/// the sender's own recovery), and `c` for `TRANSFERFT` and `BURNFT`.
pub fn encrypted_outputs(za_type: u64) -> (r: EncryptedOutputs)
    ensures
        r.b == (za_type != ZA_MINTAUTH && za_type != ZA_BURNAUTH),
        r.c == (za_type == ZA_TRANSFERFT || za_type == ZA_BURNFT),
{
    EncryptedOutputs {
        b: za_type != ZA_MINTAUTH && za_type != ZA_BURNAUTH,
        c: za_type == ZA_TRANSFERFT || za_type == ZA_BURNFT,
    }
}

/// The action types covered by the aggregated proof of a bundle: all but the two
/// authorization types, which need no proof.
pub open spec fn is_proved_type(t: u64) -> bool {
    t != ZA_MINTAUTH && t != ZA_BURNAUTH
}

/// The public inputs that the aggregated proof of a bundle covers, in order: those of the
/// actions whose type needs a proof.
pub open spec fn proved_instances_of(z: Seq<ZAction>) -> Seq<Instance>
    decreases z.len(),
{
    if z.len() == 0 {
        Seq::empty()
    } else if is_proved_type(z.last().za_type) {
        proved_instances_of(z.drop_last()).push(z.last().ins)
    } else {
        proved_instances_of(z.drop_last())
    }
}

/// Collects the public inputs that the aggregated proof of a bundle covers (see
/// `proved_instances_of`).
pub fn proved_instances(zactions: &Vec<ZAction>) -> (r: Vec<Instance>)
    ensures
        r@ == proved_instances_of(zactions@),
{
    let mut r: Vec<Instance> = Vec::new();
    let mut i: usize = 0;
    while i < zactions.len()
        invariant
            i <= zactions@.len(),
            r@ == proved_instances_of(zactions@.subrange(0, i as int)),
        decreases zactions@.len() - i,
    {
        let t = zactions[i].za_type;
        assert(zactions@.subrange(0, i + 1).drop_last() == zactions@.subrange(0, i as int));
        if t != ZA_MINTAUTH && t != ZA_BURNAUTH {
            r.push(zactions[i].ins);
        }
        i = i + 1;
    }
    assert(zactions@.subrange(0, zactions@.len() as int) == zactions@);
    r
}

impl ZAction {
    /// Constructs an action from its constituent parts.
    pub fn from_parts(za_type: u64, ins: Instance, memo: String) -> (r: Self)
        ensures
            r.za_type == za_type,
            r.ins == ins,
            r.memo@ == memo@,
    {
        ZAction { za_type, ins, memo }
    }

    /// Returns the public inputs of this action.
    pub fn instance(&self) -> (r: Instance)
        ensures
            r == self.ins,
    {
        self.ins
    }

    /// Returns the type of this action.
    pub fn za_type(&self) -> (r: u64)
        ensures
            r == self.za_type,
    {
        self.za_type
    }

    /// The hexadecimal wire form of this action (see `zaction_hex`).
    pub fn serialize_eos(&self) -> (r: String)
        ensures
            r@ == zaction_hex(self.za_type, self.ins, self.memo@),
    {
        let ins = &self.ins;
        let mut fixed: Vec<u8> = Vec::new();
        push_u64_le(&mut fixed, self.za_type);
        push_limbs_le(&mut fixed, &ins.anchor);
        push_limbs_le(&mut fixed, &ins.nf);
        push_limbs_le(&mut fixed, &ins.rk_x);
        push_limbs_le(&mut fixed, &ins.rk_y);
        fixed.push(if ins.nft { 1u8 } else { 0u8 });
        push_u64_le(&mut fixed, ins.b_d1);
        push_u64_le(&mut fixed, ins.b_d2);
        push_u64_le(&mut fixed, ins.b_sc);
        push_u64_le(&mut fixed, ins.c_d1);
        push_limbs_le(&mut fixed, &ins.cmb);
        push_limbs_le(&mut fixed, &ins.cmc);
        assert(fixed@ == zaction_fixed_bytes(self.za_type, self.ins));
        let m = self.memo.as_str().as_bytes();
        assert(m@ == encode_utf8(self.memo@));
        let n: usize = if m.len() >= 255 { 255 } else { m.len() };
        let mut memo: Vec<u8> = Vec::new();
        let mut i: usize = 0;
        while i < n
            invariant
                n <= m@.len(),
                i <= n,
                memo@ == m@.subrange(0, i as int),
            decreases n - i,
        {
            memo.push(m[i]);
            i = i + 1;
            assert(m@.subrange(0, i as int) == m@.subrange(0, i - 1).push(m@[i - 1]));
        }
        assert(memo@ == wire_memo(m@));
        let mut res = hex_encode(fixed.as_slice());
        let len = hex_upper_padded(n as u64);
        res.append(len.as_str());
        let memo_hex = hex_encode(memo.as_slice());
        res.append(memo_hex.as_str());
        res
    }
}

} // verus!
