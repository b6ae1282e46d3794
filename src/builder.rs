//! Building a ledger transaction around shielded actions: note selection, the values of
//! outputs, and the interleaving of shielded steps with public ledger actions.

use vstd::prelude::*;
use vstd::utf8::encode_utf8;
use vstd::string::StringSliceAdditionalSpecFns;
use crate::action::ZA_DUMMY;
use crate::bytes::{hex_lower, hex_upper_min2, hex_upper_padded, le64, push_u64_le};
use crate::action::{ZA_BURNFT, ZA_BURNNFT, ZA_MINTAUTH, ZA_MINTFT, ZA_MINTNFT, ZA_TRANSFERFT, ZA_TRANSFERNFT};
use crate::address::{address_hrp, base32_of, bech32m_of, Address};
use crate::note::{NoteEx, NT_AT, NT_FT, NT_NFT};

verus! {

broadcast use vstd::seq_lib::group_to_multiset_ensures, vstd::multiset::group_multiset_axioms;

/// A note that can pay for a fungible amount of `symbol` issued by contract `sc`.
pub open spec fn fungible_match(n: NoteEx, symbol: u64, sc: u64) -> bool {
    n.note.sc == sc && n.note.d2 == symbol && n.note.nft == 0
}

/// The non-fungible note with identifiers `d1`, `d2` issued by contract `sc`.
pub open spec fn nft_match(n: NoteEx, d1: u64, d2: u64, sc: u64) -> bool {
    n.note.sc == sc && n.note.d2 == d2 && n.note.d1 == d1 && n.note.nft != 0
}

/// The sum of the quantities of some notes.
pub open spec fn total(s: Seq<NoteEx>) -> int
    decreases s.len(),
{
    if s.len() == 0 {
        0
    } else {
        total(s.drop_last()) + s.last().note.d1
    }
}

/// The sum of the quantities of the notes that match a fungible request.
pub open spec fn matching_total(s: Seq<NoteEx>, symbol: u64, sc: u64) -> int
    decreases s.len(),
{
    if s.len() == 0 {
        0
    } else {
        matching_total(s.drop_last(), symbol, sc) + if fungible_match(s.last(), symbol, sc) {
            s.last().note.d1 as int
        } else {
            0
        }
    }
}

pub open spec fn has_match(s: Seq<NoteEx>, symbol: u64, sc: u64) -> bool {
    exists|i: int| 0 <= i < s.len() && fungible_match(#[trigger] s[i], symbol, sc)
}

/// Whether a fungible request can be met from `s`: some note matches and the matching
/// quantities reach the amount.
pub open spec fn can_select(s: Seq<NoteEx>, amount: u64, symbol: u64, sc: u64) -> bool {
    has_match(s, symbol, sc) && matching_total(s, symbol, sc) >= amount
}

proof fn lemma_matching_total_remove(s: Seq<NoteEx>, i: int, symbol: u64, sc: u64)
    requires
        0 <= i < s.len(),
    ensures
        matching_total(s.remove(i), symbol, sc) == matching_total(s, symbol, sc) - if fungible_match(s[i], symbol, sc) {
            s[i].note.d1 as int
        } else {
            0
        },
    decreases s.len(),
{
    if i == s.len() - 1 {
        assert(s.remove(i) == s.drop_last());
    } else {
        lemma_matching_total_remove(s.drop_last(), i, symbol, sc);
        assert(s.remove(i).drop_last() == s.drop_last().remove(i));
        assert(s.remove(i).last() == s.last());
    }
}

proof fn lemma_matching_total_none(s: Seq<NoteEx>, symbol: u64, sc: u64)
    requires
        !has_match(s, symbol, sc),
    ensures
        matching_total(s, symbol, sc) == 0,
    decreases s.len(),
{
    if s.len() > 0 {
        assert(!fungible_match(s[s.len() - 1], symbol, sc));
        assert forall|i: int| 0 <= i < s.drop_last().len() implies !fungible_match(#[trigger] s.drop_last()[i], symbol, sc) by {
            assert(s.drop_last()[i] == s[i]);
        }
        lemma_matching_total_none(s.drop_last(), symbol, sc);
    }
}

proof fn lemma_matching_total_nonneg(s: Seq<NoteEx>, symbol: u64, sc: u64)
    ensures
        matching_total(s, symbol, sc) >= 0,
    decreases s.len(),
{
    if s.len() > 0 {
        lemma_matching_total_nonneg(s.drop_last(), symbol, sc);
    }
}

/// The index of the matching note with the largest quantity (the last one among equals),
/// or `None` when no note matches.
fn largest_match(pool: &Vec<NoteEx>, symbol: u64, sc: u64) -> (r: Option<usize>)
    ensures
        r is None <==> !has_match(pool@, symbol, sc),
        r is Some ==> r->0 < pool@.len() && fungible_match(pool@[r->0 as int], symbol, sc) && forall|k: int|
            0 <= k < pool@.len() && fungible_match(#[trigger] pool@[k], symbol, sc) ==> pool@[k].note.d1
                <= pool@[r->0 as int].note.d1,
{
    let mut best: Option<usize> = None;
    let mut j: usize = 0;
    while j < pool.len()
        invariant
            j <= pool@.len(),
            best is None ==> forall|k: int| 0 <= k < j ==> !fungible_match(#[trigger] pool@[k], symbol, sc),
            best is Some ==> best->0 < j && fungible_match(pool@[best->0 as int], symbol, sc) && forall|k: int|
                0 <= k < j && fungible_match(#[trigger] pool@[k], symbol, sc) ==> pool@[k].note.d1
                    <= pool@[best->0 as int].note.d1,
        decreases pool@.len() - j,
    {
        let n = &pool[j];
        if n.note.sc == sc && n.note.d2 == symbol && n.note.nft == 0 {
            match best {
                None => {
                    best = Some(j);
                },
                Some(b) => {
                    if n.note.d1 >= pool[b].note.d1 {
                        best = Some(j);
                    }
                },
            }
        }
        j = j + 1;
    }
    best
}

/// Greedy selection of fungible notes, largest quantity first: picks matching notes (same
/// contract, same symbol, fungible) from `notes` until their quantities reach `amount`,
/// and returns them in the order picked with the change left over from the last one.
/// The picked notes leave `notes`. Returns `None` when the matching notes do not reach
/// the amount (or none matches); `notes` is then left as it was.
pub fn select_fungible_notes(notes: &mut Vec<NoteEx>, amount: u64, symbol: u64, sc: u64) -> (r: Option<(Vec<NoteEx>, u64)>)
    ensures
        r is Some <==> can_select(old(notes)@, amount, symbol, sc),
        r is None ==> final(notes)@ == old(notes)@,
        r matches Some((sel, change)) ==> {
            &&& final(notes)@.to_multiset().add(sel@.to_multiset()) == old(notes)@.to_multiset()
            &&& sel@.len() > 0
            &&& forall|j: int| 0 <= j < sel@.len() ==> fungible_match(#[trigger] sel@[j], symbol, sc)
            &&& forall|j: int, k: int| 0 <= j < k < sel@.len() ==> (#[trigger] sel@[j]).note.d1 >= (#[trigger] sel@[k]).note.d1
            &&& forall|k: int| 0 <= k < final(notes)@.len() && fungible_match(#[trigger] final(notes)@[k], symbol, sc)
                ==> final(notes)@[k].note.d1 <= sel@.last().note.d1
            &&& total(sel@) == amount + change
            &&& (sel@.len() == 1 || total(sel@.drop_last()) < amount)
        },
{
    let ghost start = notes@;
    let mut pool: Vec<NoteEx> = Vec::new();
    let mut i: usize = 0;
    while i < notes.len()
        invariant
            notes@ == start,
            start == old(notes)@,
            i <= notes@.len(),
            pool@ == notes@.subrange(0, i as int),
        decreases notes@.len() - i,
    {
        pool.push(notes[i]);
        i = i + 1;
        assert(notes@.subrange(0, i as int) == notes@.subrange(0, i - 1).push(notes@[i - 1]));
    }
    assert(pool@ == start);
    let mut sel: Vec<NoteEx> = Vec::new();
    let mut sum: u128 = 0;
    proof {
        lemma_matching_total_nonneg(start, symbol, sc);
    }
    loop
        invariant
            notes@ == start,
            start == old(notes)@,
            pool@.to_multiset().add(sel@.to_multiset()) == start.to_multiset(),
            sel@.len() == 0 ==> pool@ == start,
            sel@.len() + pool@.len() == start.len(),
            sum == total(sel@),
            sel@.len() > 0 ==> total(sel@.drop_last()) < amount,
            sel@.len() > 0 ==> sum < amount,
            matching_total(pool@, symbol, sc) + total(sel@) == matching_total(start, symbol, sc),
            forall|j: int| 0 <= j < sel@.len() ==> fungible_match(#[trigger] sel@[j], symbol, sc),
            forall|j: int, k: int| 0 <= j < k < sel@.len() ==> (#[trigger] sel@[j]).note.d1 >= (#[trigger] sel@[k]).note.d1,
            sel@.len() > 0 ==> forall|k: int| 0 <= k < pool@.len() && fungible_match(#[trigger] pool@[k], symbol, sc)
                ==> pool@[k].note.d1 <= sel@.last().note.d1,
        decreases pool@.len(),
    {
        let best = largest_match(&pool, symbol, sc);
        match best {
            None => {
                proof {
                    lemma_matching_total_none(pool@, symbol, sc);
                    if sel@.len() == 0 {
                        assert(!has_match(start, symbol, sc));
                    }
                }
                return None;
            },
            Some(b) => {
                let ghost before_pool = pool@;
                let ghost before_sel = sel@;
                let n = pool.remove(b);
                proof {
                    lemma_matching_total_remove(before_pool, b as int, symbol, sc);
                    assert(before_pool.contains(n));
                    assert(pool@.to_multiset() == before_pool.to_multiset().remove(n));
                    assert(before_pool.to_multiset().count(n) > 0);
                    assert forall|k: int| 0 <= k < pool@.len() && fungible_match(#[trigger] pool@[k], symbol, sc)
                        implies pool@[k].note.d1 <= n.note.d1 by {
                        if k < b {
                            assert(pool@[k] == before_pool[k]);
                        } else {
                            assert(pool@[k] == before_pool[k + 1]);
                        }
                    }
                    if before_sel.len() > 0 {
                        assert(before_pool[b as int].note.d1 <= before_sel.last().note.d1);
                    }
                }
                sel.push(n);
                sum = sum + n.note.d1 as u128;
                proof {
                    assert(sel@.drop_last() == before_sel);
                    assert(pool@.to_multiset().add(sel@.to_multiset()) =~= start.to_multiset());
                    lemma_matching_total_nonneg(pool@, symbol, sc);
                }
                if sum >= amount as u128 {
                    proof {
                        assert(sel@.len() > 0);
                        assert(sel@[0] == sel@[0]);
                        assert(has_match(start, symbol, sc)) by {
                            assert(start.to_multiset().count(sel@[0]) > 0);
                            assert(start.contains(sel@[0]));
                        }
                    }
                    assert(sum - amount < 0x1_0000_0000_0000_0000) by {
                        if before_sel.len() > 0 {
                            assert(total(before_sel) < amount);
                        }
                        assert(total(sel@) == total(before_sel) + n.note.d1);
                    }
                    let change = (sum - amount as u128) as u64;
                    assert(total(sel@) == amount + change);
                    *notes = pool;
                    return Some((sel, change));
                }
            },
        }
    }
}

/// No note is spent twice by a selection: when the pool held no note twice, the notes
/// picked are distinct, and none of them is left in the pool for a later selection.
pub proof fn lemma_selection_spends_each_note_once(before: Seq<NoteEx>, after: Seq<NoteEx>, picked: Seq<NoteEx>)
    requires
        before.no_duplicates(),
        after.to_multiset().add(picked.to_multiset()) == before.to_multiset(),
    ensures
        picked.no_duplicates(),
        forall|i: int| 0 <= i < picked.len() ==> !after.contains(#[trigger] picked[i]),
{
    before.lemma_multiset_has_no_duplicates();
    assert forall|x: NoteEx| picked.to_multiset().contains(x) implies picked.to_multiset().count(x) == 1 by {
        assert(before.to_multiset().count(x) == after.to_multiset().count(x) + picked.to_multiset().count(x));
        assert(before.to_multiset().contains(x));
    }
    picked.lemma_multiset_has_no_duplicates_conv();
    assert forall|i: int| 0 <= i < picked.len() implies !after.contains(#[trigger] picked[i]) by {
        let x = picked[i];
        assert(picked.to_multiset().count(x) > 0);
        assert(before.to_multiset().count(x) == after.to_multiset().count(x) + picked.to_multiset().count(x));
        assert(before.to_multiset().contains(x));
    }
}

/// Finds the non-fungible note with identifiers `d1`, `d2` issued by contract `sc`: the
/// first such note leaves `notes` and is returned. Returns `None`, leaving `notes` as it
/// was, when there is none.
pub fn select_nonfungible_note(notes: &mut Vec<NoteEx>, d1: u64, d2: u64, sc: u64) -> (r: Option<NoteEx>)
    ensures
        r is None <==> forall|i: int| 0 <= i < old(notes)@.len() ==> !nft_match(#[trigger] old(notes)@[i], d1, d2, sc),
        r is None ==> final(notes)@ == old(notes)@,
        r is Some ==> exists|i: int|
            0 <= i < old(notes)@.len() && nft_match(old(notes)@[i], d1, d2, sc) && (forall|k: int|
                0 <= k < i ==> !nft_match(#[trigger] old(notes)@[k], d1, d2, sc)) && r->0 == old(notes)@[i]
                && final(notes)@ == old(notes)@.remove(i),
{
    let mut i: usize = 0;
    while i < notes.len()
        invariant
            notes@ == old(notes)@,
            i <= notes@.len(),
            forall|k: int| 0 <= k < i ==> !nft_match(#[trigger] notes@[k], d1, d2, sc),
        decreases notes@.len() - i,
    {
        let n = &notes[i];
        if n.note.sc == sc && n.note.d2 == d2 && n.note.d1 == d1 && n.note.nft != 0 {
            let r = notes.remove(i);
            return Some(r);
        }
        i = i + 1;
    }
    None
}

/// Finds the authorization note of contract `sc` whose extracted commitment is `nc`;
/// `commitments[i]` is the extracted commitment of `notes[i]`. The first such note leaves
/// `notes` (its commitment leaves `commitments`) and is returned. Returns `None`, leaving
/// both as they were, when there is none.
pub fn select_auth_note(notes: &mut Vec<NoteEx>, sc: u64, nc: [u64; 4], commitments: &mut Vec<[u64; 4]>) -> (r: Option<NoteEx>)
    requires
        old(commitments)@.len() == old(notes)@.len(),
    ensures
        final(commitments)@.len() == final(notes)@.len(),
        r is None <==> forall|i: int|
            0 <= i < old(notes)@.len() ==> !auth_match(#[trigger] old(notes)@[i], old(commitments)@[i], sc, nc),
        r is None ==> final(notes)@ == old(notes)@ && final(commitments)@ == old(commitments)@,
        r is Some ==> exists|i: int|
            0 <= i < old(notes)@.len() && auth_match(old(notes)@[i], old(commitments)@[i], sc, nc) && (forall|k: int|
                0 <= k < i ==> !auth_match(#[trigger] old(notes)@[k], old(commitments)@[k], sc, nc)) && r->0
                == old(notes)@[i] && final(notes)@ == old(notes)@.remove(i) && final(commitments)@ == old(
                commitments,
            )@.remove(i),
{
    let mut i: usize = 0;
    while i < notes.len()
        invariant
            notes@ == old(notes)@,
            commitments@ == old(commitments)@,
            commitments@.len() == notes@.len(),
            i <= notes@.len(),
            forall|k: int| 0 <= k < i ==> !auth_match(#[trigger] notes@[k], commitments@[k], sc, nc),
        decreases notes@.len() - i,
    {
        let n = &notes[i];
        let cm = commitments[i];
        if n.note.sc == sc && cm[0] == nc[0] && cm[1] == nc[1] && cm[2] == nc[2] && cm[3] == nc[3] && n.note.nft != 0 {
            assert(cm =~= nc);
            let r = notes.remove(i);
            commitments.remove(i);
            return Some(r);
        }
        assert(!(cm =~= nc) || !auth_match(notes@[i as int], commitments@[i as int], sc, nc));
        i = i + 1;
    }
    None
}

/// The authorization note of contract `sc` with extracted commitment `nc`.
pub open spec fn auth_match(n: NoteEx, cm: [u64; 4], sc: u64, nc: [u64; 4]) -> bool {
    n.note.sc == sc && cm == nc && n.note.nft != 0
}

/// The account of the token contract that runs the shielded steps.
pub open spec fn token_contract_account() -> Seq<char> {
    seq!['t', 'h', 'e', 'z', 'e', 'o', 's', 't', 'o', 'k', 'e', 'n']
}

/// A shielded action requested by the user: its type, the recipient (an address, an
/// account for a burn, or the commitment of an authorization note in hexadecimal), three
/// value fields in decimal or as a name, and a memo.
#[derive(Clone, Debug)]
pub struct ZActionDesc {
    pub za_type: u64,
    pub to: String,
    pub d1: String,
    pub d2: String,
    pub sc: String,
    pub memo: String,
}

/// A permission that authorizes a ledger action.
#[derive(Clone, Debug)]
pub struct EOSAuthorization {
    pub actor: String,
    pub permission: String,
}

/// A public ledger action. `data` is its payload as text.
#[derive(Clone, Debug)]
pub struct EOSAction {
    pub account: String,
    pub name: String,
    pub authorization: Vec<EOSAuthorization>,
    pub data: String,
}

/// A public ledger action and the shielded actions it carries.
#[derive(Clone, Debug)]
pub struct EOSActionDesc {
    pub action: EOSAction,
    pub zaction_descs: Vec<ZActionDesc>,
}

/// The ways building a transaction fails.
#[derive(Clone, Debug)]
pub enum TransactionBuilderError {
    GeneralError(String),
}

/// Builds transactions against a tree with `leaf_count` leaves.
#[derive(Clone, Copy, Debug)]
pub struct TransactionBuilder {
    pub leaf_count: u64,
}

impl TransactionBuilder {
    pub fn new(leaf_count: u64) -> (r: Self)
        ensures
            r.leaf_count == leaf_count,
    {
        TransactionBuilder { leaf_count }
    }
}

/// Two actions with the same account, name, authorizations and payload.
pub open spec fn same_action(a: EOSAction, b: EOSAction) -> bool {
    a.account@ == b.account@ && a.name@ == b.name@ && a.authorization@ == b.authorization@ && a.data@ == b.data@
}

pub open spec fn same_actions(s: Seq<EOSAction>, t: Seq<EOSAction>) -> bool {
    s.len() == t.len() && forall|i: int| 0 <= i < s.len() ==> same_action(#[trigger] s[i], t[i])
}

fn copy_authorizations(v: &Vec<EOSAuthorization>) -> (r: Vec<EOSAuthorization>)
    ensures
        r@ == v@,
{
    let mut r: Vec<EOSAuthorization> = Vec::new();
    let mut i: usize = 0;
    while i < v.len()
        invariant
            i <= v@.len(),
            r@ == v@.subrange(0, i as int),
        decreases v@.len() - i,
    {
        let a = EOSAuthorization { actor: v[i].actor.clone(), permission: v[i].permission.clone() };
        r.push(a);
        i = i + 1;
        assert(v@.subrange(0, i as int) == v@.subrange(0, i - 1).push(v@[i - 1]));
    }
    assert(v@.subrange(0, v@.len() as int) == v@);
    r
}

/// A copy of an action.
pub fn copy_action(a: &EOSAction) -> (r: EOSAction)
    ensures
        same_action(r, *a),
{
    EOSAction {
        account: a.account.clone(),
        name: a.name.clone(),
        authorization: copy_authorizations(&a.authorization),
        data: a.data.clone(),
    }
}

/// The actions of some descriptors, in order.
pub open spec fn actions_of(d: Seq<EOSActionDesc>) -> Seq<EOSAction> {
    d.map_values(|x: EOSActionDesc| x.action)
}

fn push_actions(out: &mut Vec<EOSAction>, descs: &Vec<EOSActionDesc>, from: usize, to: usize)
    requires
        from <= to <= descs@.len(),
    ensures
        final(out)@.len() == old(out)@.len() + (to - from),
        forall|i: int| 0 <= i < old(out)@.len() ==> #[trigger] final(out)@[i] == old(out)@[i],
        forall|i: int| 0 <= i < to - from ==> same_action(#[trigger] final(out)@[old(out)@.len() + i], descs@[from + i].action),
{
    let mut i: usize = from;
    while i < to
        invariant
            from <= i <= to <= descs@.len(),
            out@.len() == old(out)@.len() + (i - from),
            forall|k: int| 0 <= k < old(out)@.len() ==> #[trigger] out@[k] == old(out)@[k],
            forall|k: int| 0 <= k < i - from ==> same_action(#[trigger] out@[old(out)@.len() + k], descs@[from + k].action),
        decreases to - i,
    {
        let a = copy_action(&descs[i].action);
        out.push(a);
        i = i + 1;
    }
}

/// The first and the last descriptor that carry shielded actions, or `None` when none
/// does.
pub fn zaction_range(action_descs: &Vec<EOSActionDesc>) -> (r: Option<(usize, usize)>)
    ensures
        r is None <==> forall|i: int| 0 <= i < action_descs@.len() ==> (#[trigger] action_descs@[i]).zaction_descs@.len() == 0,
        r matches Some((b, e)) ==> {
            &&& b <= e < action_descs@.len()
            &&& action_descs@[b as int].zaction_descs@.len() > 0
            &&& action_descs@[e as int].zaction_descs@.len() > 0
            &&& forall|i: int| 0 <= i < b ==> (#[trigger] action_descs@[i]).zaction_descs@.len() == 0
            &&& forall|i: int| e < i < action_descs@.len() ==> (#[trigger] action_descs@[i]).zaction_descs@.len() == 0
        },
{
    let mut r: Option<(usize, usize)> = None;
    let mut i: usize = 0;
    while i < action_descs.len()
        invariant
            i <= action_descs@.len(),
            r is None <==> forall|k: int| 0 <= k < i ==> (#[trigger] action_descs@[k]).zaction_descs@.len() == 0,
            r matches Some((b, e)) ==> {
                &&& b <= e < i
                &&& action_descs@[b as int].zaction_descs@.len() > 0
                &&& action_descs@[e as int].zaction_descs@.len() > 0
                &&& forall|k: int| 0 <= k < b ==> (#[trigger] action_descs@[k]).zaction_descs@.len() == 0
                &&& forall|k: int| e < k < i ==> (#[trigger] action_descs@[k]).zaction_descs@.len() == 0
            },
        decreases action_descs@.len() - i,
    {
        if action_descs[i].zaction_descs.len() > 0 {
            r = match r {
                None => Some((i, i)),
                Some((b, _)) => Some((b, i)),
            };
        }
        i = i + 1;
    }
    r
}

/// `k` copies of the little-endian bytes of the dummy type.
pub open spec fn dummy_type_copies(k: nat) -> Seq<u8>
    decreases k,
{
    if k == 0 {
        Seq::empty()
    } else {
        dummy_type_copies((k - 1) as nat) + le64(ZA_DUMMY)
    }
}

/// The bytes of the dummy action that leads the actions of every step: the dummy type
/// in five little-endian copies, then 210 zero bytes.
pub open spec fn dummy_step_bytes() -> Seq<u8> {
    dummy_type_copies(5) + Seq::new(210, |i: int| 0u8)
}

/// The hexadecimal text of the dummy action that leads the actions of every step.
pub fn dummy_step_hex() -> (r: String)
    ensures
        r@ == hex_lower(dummy_step_bytes()),
{
    let mut b: Vec<u8> = Vec::new();
    let mut k: usize = 0;
    while k < 5
        invariant
            k <= 5,
            b@ == dummy_type_copies(k as nat),
        decreases 5 - k,
    {
        push_u64_le(&mut b, ZA_DUMMY);
        k = k + 1;
    }
    let mut z: usize = 0;
    while z < 210
        invariant
            z <= 210,
            b@ == dummy_type_copies(5) + Seq::new(z as nat, |i: int| 0u8),
        decreases 210 - z,
    {
        b.push(0);
        z = z + 1;
        assert(b@ =~= dummy_type_copies(5) + Seq::new(z as nat, |i: int| 0u8));
    }
    crate::bytes::hex_encode(b.as_slice())
}

/// The concatenation of some strings.
pub open spec fn concat_all(s: Seq<Seq<char>>) -> Seq<char>
    decreases s.len(),
{
    if s.len() == 0 {
        Seq::empty()
    } else {
        concat_all(s.drop_last()) + s.last()
    }
}

pub open spec fn views_of(v: Seq<String>) -> Seq<Seq<char>> {
    v.map_values(|x: String| x@)
}

/// The payload of a step: unchanged when the step carries no shielded actions; else the
/// number of serialized actions plus one in upper-case hexadecimal, the serialized dummy
/// action, the serialized actions, and then the payload as it was.
pub open spec fn step_data(hexes: Seq<Seq<char>>, data: Seq<char>) -> Seq<char> {
    if hexes.len() == 0 {
        data
    } else {
        hex_upper_min2((hexes.len() + 1) as nat) + hex_lower(dummy_step_bytes()) + concat_all(hexes) + data
    }
}

/// Prepends the serialized shielded actions of a step to the payload of its ledger
/// action (see `step_data`).
pub fn step_action_data(zaction_hexes: &Vec<String>, data: &String) -> (r: String)
    requires
        zaction_hexes@.len() < 0xFFFF_FFFF_FFFF_FFFF,
    ensures
        r@ == step_data(views_of(zaction_hexes@), data@),
{
    if zaction_hexes.len() == 0 {
        return data.clone();
    }
    let mut res = hex_upper_padded(zaction_hexes.len() as u64 + 1);
    let dummy = dummy_step_hex();
    res.append(dummy.as_str());
    let ghost head = res@;
    let mut i: usize = 0;
    while i < zaction_hexes.len()
        invariant
            i <= zaction_hexes@.len(),
            res@ == head + concat_all(views_of(zaction_hexes@).subrange(0, i as int)),
        decreases zaction_hexes@.len() - i,
    {
        res.append(zaction_hexes[i].as_str());
        i = i + 1;
        assert(views_of(zaction_hexes@).subrange(0, i as int).drop_last() == views_of(zaction_hexes@).subrange(0, i - 1));
    }
    assert(views_of(zaction_hexes@).subrange(0, zaction_hexes@.len() as int) == views_of(zaction_hexes@));
    res.append(data.as_str());
    res
}

/// The payload of the action that begins the shielded steps: a JSON object with the
/// proof's address, the encrypted notes and the list of step actions, the latter two
/// given as JSON text.
pub open spec fn begin_data(proof_uri: Seq<char>, notes_json: Seq<char>, tx_json: Seq<char>) -> Seq<char> {
    seq!['{', '"', 'p', 'r', 'o', 'o', 'f', '"', ':', '"'] + proof_uri + seq!['"', ',', '"', 'n', 'o', 't', 'e', 's', '"', ':']
        + notes_json + seq![',', '"', 't', 'x', '"', ':'] + tx_json + seq!['}']
}

/// Frames the payload of the action that begins the shielded steps.
pub fn begin_action_data(proof_uri: &String, notes_json: &String, tx_json: &String) -> (r: String)
    ensures
        r@ == begin_data(proof_uri@, notes_json@, tx_json@),
{
    proof {
        reveal_strlit("{\"proof\":\"");
        reveal_strlit("\",\"notes\":");
        reveal_strlit(",\"tx\":");
        reveal_strlit("}");
    }
    let mut r = String::from_str("{\"proof\":\"");
    r.append(proof_uri.as_str());
    r.append("\",\"notes\":");
    r.append(notes_json.as_str());
    r.append(",\"tx\":");
    r.append(tx_json.as_str());
    r.append("}");
    r
}

/// The ledger actions of the shielded steps `begin..=end`, each with the serialized
/// shielded actions of its step prepended to its payload; `zaction_hexes[i]` holds those
/// of descriptor `begin + i`.
pub fn step_actions(
    action_descs: &Vec<EOSActionDesc>,
    begin: usize,
    end: usize,
    zaction_hexes: &Vec<Vec<String>>,
) -> (r: Vec<EOSAction>)
    requires
        begin <= end < action_descs@.len(),
        zaction_hexes@.len() == end - begin + 1,
        forall|i: int| 0 <= i < zaction_hexes@.len() ==> (#[trigger] zaction_hexes@[i])@.len() < 0xFFFF_FFFF_FFFF_FFFF,
    ensures
        r@.len() == end - begin + 1,
        forall|i: int| 0 <= i < r@.len() ==> {
            let a = action_descs@[begin + i].action;
            &&& (#[trigger] r@[i]).account@ == a.account@
            &&& r@[i].name@ == a.name@
            &&& r@[i].authorization@ == a.authorization@
            &&& r@[i].data@ == step_data(views_of(zaction_hexes@[i]@), a.data@)
        },
{
    let mut r: Vec<EOSAction> = Vec::new();
    let mut i: usize = 0;
    let n = action_descs.len();
    while i <= end - begin
        invariant
            n == action_descs@.len(),
            begin <= end < action_descs@.len(),
            zaction_hexes@.len() == end - begin + 1,
            forall|k: int| 0 <= k < zaction_hexes@.len() ==> (#[trigger] zaction_hexes@[k])@.len() < 0xFFFF_FFFF_FFFF_FFFF,
            i <= end - begin + 1,
            r@.len() == i,
            forall|k: int| 0 <= k < i ==> {
                let a = action_descs@[begin + k].action;
                &&& (#[trigger] r@[k]).account@ == a.account@
                &&& r@[k].name@ == a.name@
                &&& r@[k].authorization@ == a.authorization@
                &&& r@[k].data@ == step_data(views_of(zaction_hexes@[k]@), a.data@)
            },
        decreases end - begin + 1 - i,
    {
        let mut a = copy_action(&action_descs[begin + i].action);
        a.data = step_action_data(&zaction_hexes[i], &action_descs[begin + i].action.data);
        r.push(a);
        i = i + 1;
    }
    r
}

/// A `step` action of the token contract with the given authorizations and payload.
pub fn step_wrapper(eos_auth: &Vec<EOSAuthorization>, data: &String) -> (r: EOSAction)
    ensures
        r.account@ == token_contract_account(),
        r.name@ == seq!['s', 't', 'e', 'p'],
        r.authorization@ == eos_auth@,
        r.data@ == data@,
{
    proof {
        reveal_strlit("thezeostoken");
        reveal_strlit("step");
    }
    EOSAction {
        account: String::from_str("thezeostoken"),
        name: String::from_str("step"),
        authorization: copy_authorizations(eos_auth),
        data: data.clone(),
    }
}

/// The `begin` action of the token contract with the given authorizations and payload.
pub fn begin_wrapper(eos_auth: &Vec<EOSAuthorization>, data: &String) -> (r: EOSAction)
    ensures
        r.account@ == token_contract_account(),
        r.name@ == seq!['b', 'e', 'g', 'i', 'n'],
        r.authorization@ == eos_auth@,
        r.data@ == data@,
{
    proof {
        reveal_strlit("thezeostoken");
        reveal_strlit("begin");
    }
    EOSAction {
        account: String::from_str("thezeostoken"),
        name: String::from_str("begin"),
        authorization: copy_authorizations(eos_auth),
        data: data.clone(),
    }
}

/// The transaction: the actions before the shielded steps `begin..=end` unchanged, the
/// `begin` action, one `step` action per step carrying that step's payload, then the
/// actions after the steps unchanged.
pub fn assemble_transaction(
    action_descs: &Vec<EOSActionDesc>,
    begin: usize,
    end: usize,
    begin_action: EOSAction,
    steps: &Vec<EOSAction>,
    eos_auth: &Vec<EOSAuthorization>,
) -> (r: Vec<EOSAction>)
    requires
        begin <= end < action_descs@.len(),
        steps@.len() == end - begin + 1,
    ensures
        r@.len() == action_descs@.len() + 1,
        forall|i: int| 0 <= i < begin ==> same_action(#[trigger] r@[i], action_descs@[i].action),
        same_action(r@[begin as int], begin_action),
        forall|i: int| 0 <= i <= end - begin ==> {
            &&& (#[trigger] r@[begin + 1 + i]).account@ == token_contract_account()
            &&& r@[begin + 1 + i].name@ == seq!['s', 't', 'e', 'p']
            &&& r@[begin + 1 + i].authorization@ == eos_auth@
            &&& r@[begin + 1 + i].data@ == steps@[i].data@
        },
        forall|i: int| end < i < action_descs@.len() ==> same_action(#[trigger] r@[i + 1], action_descs@[i].action),
{
    let n = action_descs.len();
    let mut r: Vec<EOSAction> = Vec::new();
    push_actions(&mut r, action_descs, 0, begin);
    let ghost before_begin = r@;
    assert forall|k: int| 0 <= k < begin implies same_action(#[trigger] before_begin[k], action_descs@[k].action) by {
        assert(before_begin[0 + k] == before_begin[k]);
    }
    r.push(begin_action);
    let ghost at_steps = r@;
    let mut i: usize = 0;
    while i < steps.len()
        invariant
            begin <= end < action_descs@.len(),
            steps@.len() == end - begin + 1,
            i <= steps@.len(),
            r@.len() == begin + 1 + i,
            n == action_descs@.len(),
            at_steps.len() == begin + 1,
            forall|k: int| 0 <= k <= begin ==> #[trigger] r@[k] == at_steps[k],
            forall|k: int| 0 <= k < i ==> {
                &&& (#[trigger] r@[begin + 1 + k]).account@ == token_contract_account()
                &&& r@[begin + 1 + k].name@ == seq!['s', 't', 'e', 'p']
                &&& r@[begin + 1 + k].authorization@ == eos_auth@
                &&& r@[begin + 1 + k].data@ == steps@[k].data@
            },
        decreases steps@.len() - i,
    {
        let s = step_wrapper(eos_auth, &steps[i].data);
        r.push(s);
        i = i + 1;
    }
    let ghost before_tail = r@;
    push_actions(&mut r, action_descs, end + 1, n);
    proof {
        assert forall|k: int| 0 <= k < begin implies same_action(#[trigger] r@[k], action_descs@[k].action) by {
            assert(r@[k] == before_tail[k]);
            assert(before_tail[k] == at_steps[k]);
            assert(at_steps[k] == before_begin[k]);
        }
        assert(r@[begin as int] == at_steps[begin as int]);
        assert forall|k: int| end < k < action_descs@.len() implies same_action(#[trigger] r@[k + 1], action_descs@[k].action) by {
            assert(r@[before_tail.len() + (k - (end + 1))] == r@[k + 1]);
        }
    }
    r
}

/// The transaction when no descriptor carries shielded actions: its ledger actions,
/// unchanged.
pub fn plain_transaction(action_descs: &Vec<EOSActionDesc>) -> (r: Vec<EOSAction>)
    ensures
        same_actions(r@, actions_of(action_descs@)),
{
    let mut r: Vec<EOSAction> = Vec::new();
    push_actions(&mut r, action_descs, 0, action_descs.len());
    assert forall|i: int| 0 <= i < r@.len() implies same_action(#[trigger] r@[i], actions_of(action_descs@)[i]) by {
        assert(r@[0 + i] == r@[i]);
    }
    r
}

/// The SHA-256 digest of some bytes.
pub uninterp spec fn sha256_of(b: Seq<u8>) -> Seq<u8>;

/// The base58 text of some bytes, in the Bitcoin alphabet.
pub uninterp spec fn base58_of(b: Seq<u8>) -> Seq<char>;

/// Relies on `sha256::digest`: the lower-case hexadecimal of the 32-byte SHA-256 digest
/// of the text's bytes.
#[verifier::external_body]
fn sha256_hex(input: &str) -> (r: String)
    ensures
        r@ == hex_lower(sha256_of(encode_utf8(input@))),
        r@.len() == 64,
{
    sha256::digest(input)
}

/// Relies on `hex::decode`: text made by hexadecimal encoding is read back into its
/// bytes.
#[verifier::external_body]
fn hex_decode(s: &str) -> (r: Option<Vec<u8>>)
    ensures
        forall|b: Seq<u8>| #[trigger] hex_lower(b) == s@ ==> r is Some && r->0@ == b,
{
    hex::decode(s).ok()
}

/// Relies on `bs58::encode(..).into_string()`.
#[verifier::external_body]
fn base58(b: &[u8]) -> (r: String)
    ensures
        r@ == base58_of(b@),
{
    bs58::encode(b).into_string()
}

/// The multihash prefix of a raw SHA-256 content address: version 1, raw codec,
/// SHA-256, 32 bytes.
pub open spec fn multihash_prefix() -> Seq<u8> {
    seq![0x01u8, 0x55u8, 0x12u8, 0x20u8]
}

/// The content address under which the storage network keeps `input`: `z` (after
/// `ipfs://` unless `short`) and the base58 text of the prefixed SHA-256 digest of
/// the input's bytes.
pub open spec fn liquidstorage_uri(input: Seq<char>, short: bool) -> Seq<char> {
    (if short { seq!['z'] } else { seq!['i', 'p', 'f', 's', ':', '/', '/', 'z'] }) + base58_of(
        multihash_prefix() + sha256_of(encode_utf8(input)),
    )
}

proof fn lemma_hex_lower_append(a: Seq<u8>, b: Seq<u8>)
    ensures
        hex_lower(a + b) == hex_lower(a) + hex_lower(b),
    decreases a.len(),
{
    if a.len() > 0 {
        lemma_hex_lower_append(a.drop_first(), b);
        assert((a + b).drop_first() == a.drop_first() + b);
    } else {
        assert(a + b == b);
    }
}

/// The content address of `input` (see `liquidstorage_uri`).
pub fn get_liquidstorage_uri(input: &String, short: bool) -> (r: String)
    ensures
        r@ == liquidstorage_uri(input@, short),
{
    let digest = sha256_hex(input.as_str());
    proof {
        reveal_strlit("01551220");
        lemma_hex_lower_append(multihash_prefix(), sha256_of(encode_utf8(input@)));
        let p = multihash_prefix();
        assert(p.drop_first() == seq![0x55u8, 0x12u8, 0x20u8]);
        assert(p.drop_first().drop_first() == seq![0x12u8, 0x20u8]);
        assert(p.drop_first().drop_first().drop_first() == seq![0x20u8]);
        assert(p.drop_first().drop_first().drop_first().drop_first() == Seq::<u8>::empty());
        reveal_with_fuel(hex_lower, 5);
        assert(hex_lower(multihash_prefix()) == "01551220"@);
    }
    let mut hex_text = String::from_str("01551220");
    hex_text.append(digest.as_str());
    let bytes = match hex_decode(hex_text.as_str()) {
        Some(b) => b,
        None => {
            proof {
                assert(false);
            }
            Vec::new()
        },
    };
    proof {
        reveal_strlit("z");
        reveal_strlit("ipfs://z");
    }
    let mut r = if short { String::from_str("z") } else { String::from_str("ipfs://z") };
    let encoded = base58(bytes.as_slice());
    r.append(encoded.as_str());
    r
}

/// The quantities of the two outputs made from one spent note.
#[derive(Clone, Copy, Debug)]
pub struct OutputValues {
    /// What goes to the recipient.
    pub b_d1: u64,
    /// What comes back as change.
    pub c_d1: u64,
}

pub open spec fn total_b(s: Seq<OutputValues>) -> int
    decreases s.len(),
{
    if s.len() == 0 {
        0
    } else {
        total_b(s.drop_last()) + s.last().b_d1
    }
}

pub open spec fn total_c(s: Seq<OutputValues>) -> int
    decreases s.len(),
{
    if s.len() == 0 {
        0
    } else {
        total_c(s.drop_last()) + s.last().c_d1
    }
}

/// The outputs of a fungible transfer or burn over the notes picked for it: every note
/// but the last goes whole to the recipient with zero change; the last one is split
/// into what the amount still needs and the change.
pub fn fungible_output_values(spent: &Vec<NoteEx>, change: u64) -> (r: Vec<OutputValues>)
    requires
        spent@.len() > 0,
        change <= spent@.last().note.d1,
    ensures
        r@.len() == spent@.len(),
        forall|i: int| 0 <= i < r@.len() ==> (#[trigger] r@[i]).b_d1 + r@[i].c_d1 == spent@[i].note.d1,
        forall|i: int| 0 <= i < r@.len() - 1 ==> (#[trigger] r@[i]).c_d1 == 0,
        r@.last().c_d1 == change,
{
    let mut r: Vec<OutputValues> = Vec::new();
    let last = spent.len() - 1;
    let mut i: usize = 0;
    while i < spent.len()
        invariant
            last == spent@.len() - 1,
            change <= spent@[last as int].note.d1,
            i <= spent@.len(),
            r@.len() == i,
            forall|k: int| 0 <= k < i ==> (#[trigger] r@[k]).b_d1 + r@[k].c_d1 == spent@[k].note.d1,
            forall|k: int| 0 <= k < i && k != last ==> (#[trigger] r@[k]).c_d1 == 0,
            forall|k: int| 0 <= k < i && k == last ==> (#[trigger] r@[k]).c_d1 == change,
        decreases spent@.len() - i,
    {
        let d1 = spent[i].note.d1;
        if i == last {
            r.push(OutputValues { b_d1: d1 - change, c_d1: change });
        } else {
            r.push(OutputValues { b_d1: d1, c_d1: 0 });
        }
        i = i + 1;
    }
    r
}

/// Value is conserved by a fungible transfer or burn: over the notes picked for an
/// amount, with their change, the recipient's outputs sum to the amount and all outputs
/// sum to what was spent.
pub proof fn lemma_fungible_value_conservation(spent: Seq<NoteEx>, outs: Seq<OutputValues>, amount: u64, change: u64)
    requires
        spent.len() > 0,
        total(spent) == amount + change,
        outs.len() == spent.len(),
        forall|i: int| 0 <= i < outs.len() ==> (#[trigger] outs[i]).b_d1 + outs[i].c_d1 == spent[i].note.d1,
        forall|i: int| 0 <= i < outs.len() - 1 ==> (#[trigger] outs[i]).c_d1 == 0,
        outs.last().c_d1 == change,
    ensures
        total_b(outs) == amount,
        total_b(outs) + total_c(outs) == total(spent),
{
    lemma_totals(spent, outs);
    lemma_change_only_last(outs);
}

proof fn lemma_totals(spent: Seq<NoteEx>, outs: Seq<OutputValues>)
    requires
        outs.len() == spent.len(),
        forall|i: int| 0 <= i < outs.len() ==> (#[trigger] outs[i]).b_d1 + outs[i].c_d1 == spent[i].note.d1,
    ensures
        total_b(outs) + total_c(outs) == total(spent),
    decreases spent.len(),
{
    if spent.len() > 0 {
        assert forall|i: int| 0 <= i < outs.drop_last().len() implies (#[trigger] outs.drop_last()[i]).b_d1
            + outs.drop_last()[i].c_d1 == spent.drop_last()[i].note.d1 by {
            assert(outs.drop_last()[i] == outs[i]);
        }
        lemma_totals(spent.drop_last(), outs.drop_last());
        assert(outs.last() == outs[outs.len() - 1]);
    }
}

proof fn lemma_change_only_last(outs: Seq<OutputValues>)
    requires
        outs.len() > 0,
        forall|i: int| 0 <= i < outs.len() - 1 ==> (#[trigger] outs[i]).c_d1 == 0,
    ensures
        total_c(outs) == outs.last().c_d1,
{
    lemma_total_c_zero(outs.drop_last());
}

proof fn lemma_total_c_zero(outs: Seq<OutputValues>)
    requires
        forall|i: int| 0 <= i < outs.len() ==> (#[trigger] outs[i]).c_d1 == 0,
    ensures
        total_c(outs) == 0,
    decreases outs.len(),
{
    if outs.len() > 0 {
        assert forall|i: int| 0 <= i < outs.drop_last().len() implies (#[trigger] outs.drop_last()[i]).c_d1 == 0 by {
            assert(outs.drop_last()[i] == outs[i]);
        }
        lemma_total_c_zero(outs.drop_last());
    }
}

/// The memo of an output sent to an address: the memo text's bytes, then zeros; `None`
/// when the text has 512 bytes or more.
pub fn text_memo(memo: &String) -> (r: Option<[u8; 512]>)
    ensures
        r is Some <==> encode_utf8(memo@).len() < 512,
        r is Some ==> r->0@ == encode_utf8(memo@) + Seq::new((512 - encode_utf8(memo@).len()) as nat, |i: int| 0u8),
{
    let b = memo.as_str().as_bytes();
    assert(b@ == encode_utf8(memo@));
    if b.len() >= 512 {
        return None;
    }
    let mut arr = [0u8; 512];
    let mut i: usize = 0;
    while i < b.len()
        invariant
            b@.len() < 512,
            i <= b@.len(),
            forall|k: int| 0 <= k < i ==> arr@[k] == b@[k],
            forall|k: int| b@.len() <= k < 512 ==> arr@[k] == 0,
        decreases b@.len() - i,
    {
        arr[i] = b[i];
        i = i + 1;
    }
    assert(arr@ == b@ + Seq::new((512 - b@.len()) as nat, |i: int| 0u8));
    Some(arr)
}

/// The memo of an output burnt to an account: the account's name value in eight
/// big-endian bytes, then zeros; `None` when the account name has more than 12 bytes.
pub fn burn_memo(to: &String) -> (r: Option<[u8; 512]>)
    ensures
        r is Some <==> encode_utf8(to@).len() <= 12,
        r is Some ==> r->0@ == crate::bytes::le64(crate::eosio::name_value(encode_utf8(to@)) as u64).reverse()
            + Seq::new(504, |i: int| 0u8),
{
    let b = to.as_str().as_bytes();
    assert(b@ == encode_utf8(to@));
    if b.len() > 12 {
        return None;
    }
    let v = crate::eosio::name_to_value(to);
    let mut le: Vec<u8> = Vec::new();
    crate::bytes::push_u64_le(&mut le, v);
    proof {
        crate::bytes::lemma_le64_round_trip(v);
    }
    let mut arr = [0u8; 512];
    let mut i: usize = 0;
    while i < 8
        invariant
            le@ == crate::bytes::le64(v),
            le@.len() == 8,
            i <= 8,
            forall|k: int| 0 <= k < i ==> arr@[k] == le@[7 - k],
            forall|k: int| 8 <= k < 512 ==> arr@[k] == 0,
        decreases 8 - i,
    {
        arr[i] = le[7 - i];
        i = i + 1;
    }
    assert(arr@ == crate::bytes::le64(v).reverse() + Seq::new(504, |i: int| 0u8));
    Some(arr)
}

/// The value of a string of decimal digits.
pub open spec fn decimal_value(s: Seq<char>) -> int
    decreases s.len(),
{
    if s.len() == 0 {
        0
    } else {
        decimal_value(s.drop_last()) * 10 + (s.last() as int - 48)
    }
}

pub open spec fn all_digits(s: Seq<char>) -> bool {
    forall|i: int| 0 <= i < s.len() ==> '0' <= #[trigger] s[i] && s[i] <= '9'
}

/// What `u64::from_str` accepts: an optional `+`, then one or more decimal digits whose
/// value fits in 64 bits.
pub open spec fn parsed_u64(s: Seq<char>) -> Option<u64> {
    let t = if s.len() > 0 && s[0] == '+' { s.drop_first() } else { s };
    if t.len() > 0 && all_digits(t) && decimal_value(t) < 0x1_0000_0000_0000_0000 {
        Some(decimal_value(t) as u64)
    } else {
        None
    }
}

/// Relies on `u64::from_str`, documented to take an optional `+` sign followed by
/// digits, without whitespace.
#[verifier::external_body]
fn parse_u64(s: &str) -> (r: Option<u64>)
    ensures
        r == parsed_u64(s@),
{
    s.parse::<u64>().ok()
}

/// The header of the note that an action of type `t` mints.
pub open spec fn minted_header(t: u64) -> u64 {
    if t == ZA_MINTFT {
        NT_FT
    } else if t == ZA_MINTNFT {
        NT_NFT
    } else {
        NT_AT
    }
}

/// The fields of an output note that a shielded action creates; the note's rho and seed
/// are chosen when it is made.
#[derive(Clone, Copy, Debug)]
pub struct OutputPlan {
    pub header: u64,
    pub recipient: Address,
    pub d1: u64,
    pub d2: u64,
    pub sc: u64,
    pub nft: u64,
    pub memo: [u8; 512],
}

/// The note minted by a mint descriptor: to the address in `to`, with the quantity and
/// symbol read as decimal numbers, the contract read as a name, fungible only for
/// `MINTFT`, and the memo text. `None` when the type is no mint, a number or the
/// address does not parse, or the memo is too long.
pub fn mint_output(desc: &ZActionDesc) -> (r: Option<OutputPlan>)
    ensures
        r is Some ==> {
            let p = r->0;
            &&& desc.za_type == ZA_MINTFT || desc.za_type == ZA_MINTNFT || desc.za_type == ZA_MINTAUTH
            &&& p.header == minted_header(desc.za_type)
            &&& parsed_u64(desc.d1@) == Some(p.d1)
            &&& parsed_u64(desc.d2@) == Some(p.d2)
            &&& p.sc as nat == crate::eosio::name_value(encode_utf8(desc.sc@))
            &&& p.nft == (if desc.za_type == ZA_MINTFT { 0u64 } else { 1u64 })
            &&& p.recipient.is_valid()
            &&& p.memo@ == encode_utf8(desc.memo@) + Seq::new((512 - encode_utf8(desc.memo@).len()) as nat, |i: int| 0u8)
        },
        (desc.za_type == ZA_MINTFT || desc.za_type == ZA_MINTNFT || desc.za_type == ZA_MINTAUTH)
            && parsed_u64(desc.d1@) is Some && parsed_u64(desc.d2@) is Some && encode_utf8(desc.memo@).len() < 512
            && (exists|raw: Seq<u8>|
            raw.len() == 43 && crate::address::valid_pk_d(raw.subrange(11, 43))
                && crate::address::all_5bit(base32_of(raw)) && desc.to@ == #[trigger] bech32m_of(
                address_hrp(),
                base32_of(raw),
            )) ==> r is Some,
{
    let t = desc.za_type;
    if t != ZA_MINTFT && t != ZA_MINTNFT && t != ZA_MINTAUTH {
        return None;
    }
    let recipient = match Address::from_bech32m(&desc.to) {
        Some(a) => a,
        None => {
            return None;
        },
    };
    let d1 = match parse_u64(desc.d1.as_str()) {
        Some(v) => v,
        None => {
            return None;
        },
    };
    let d2 = match parse_u64(desc.d2.as_str()) {
        Some(v) => v,
        None => {
            return None;
        },
    };
    let memo = match text_memo(&desc.memo) {
        Some(m) => m,
        None => {
            return None;
        },
    };
    let header = if t == ZA_MINTFT {
        NT_FT
    } else if t == ZA_MINTNFT {
        NT_NFT
    } else {
        NT_AT
    };
    Some(OutputPlan {
        header,
        recipient,
        d1,
        d2,
        sc: crate::eosio::name_to_value(&desc.sc),
        nft: if t == ZA_MINTFT { 0 } else { 1 },
        memo,
    })
}

/// What a transfer or burn descriptor asks to spend: the quantity (or, for a
/// non-fungible token, its first identifier) and the symbol as decimal numbers, and the
/// contract as a name.
#[derive(Clone, Copy, Debug)]
pub struct SpendRequest {
    pub d1: u64,
    pub d2: u64,
    pub sc: u64,
}

/// Reads what a descriptor asks to spend; `None` when a number does not parse.
pub fn spend_request(desc: &ZActionDesc) -> (r: Option<SpendRequest>)
    ensures
        r is Some <==> parsed_u64(desc.d1@) is Some && parsed_u64(desc.d2@) is Some,
        r is Some ==> parsed_u64(desc.d1@) == Some(r->0.d1) && parsed_u64(desc.d2@) == Some(r->0.d2)
            && r->0.sc as nat == crate::eosio::name_value(encode_utf8(desc.sc@)),
{
    let d1 = match parse_u64(desc.d1.as_str()) {
        Some(v) => v,
        None => {
            return None;
        },
    };
    let d2 = match parse_u64(desc.d2.as_str()) {
        Some(v) => v,
        None => {
            return None;
        },
    };
    Some(SpendRequest { d1, d2, sc: crate::eosio::name_to_value(&desc.sc) })
}

/// The memo of the output that a transfer or burn sends: for a transfer, the memo text;
/// for a burn, the receiving account's name value (see `burn_memo`). `None` for other
/// types or when the text does not fit.
pub fn output_memo(desc: &ZActionDesc) -> (r: Option<[u8; 512]>)
    ensures
        (desc.za_type == ZA_TRANSFERFT || desc.za_type == ZA_TRANSFERNFT) ==> (r is Some <==> encode_utf8(desc.memo@).len() < 512)
            && (r is Some ==> r->0@ == encode_utf8(desc.memo@) + Seq::new((512 - encode_utf8(desc.memo@).len()) as nat, |i: int| 0u8)),
        (desc.za_type == ZA_BURNFT || desc.za_type == ZA_BURNNFT) ==> (r is Some <==> encode_utf8(desc.to@).len() <= 12)
            && (r is Some ==> r->0@ == crate::bytes::le64(crate::eosio::name_value(encode_utf8(desc.to@)) as u64).reverse()
                + Seq::new(504, |i: int| 0u8)),
        !(desc.za_type == ZA_TRANSFERFT || desc.za_type == ZA_TRANSFERNFT || desc.za_type == ZA_BURNFT
            || desc.za_type == ZA_BURNNFT) ==> r is None,
{
    let t = desc.za_type;
    if t == ZA_TRANSFERFT || t == ZA_TRANSFERNFT {
        text_memo(&desc.memo)
    } else if t == ZA_BURNFT || t == ZA_BURNNFT {
        burn_memo(&desc.to)
    } else {
        None
    }
}

} // verus!
