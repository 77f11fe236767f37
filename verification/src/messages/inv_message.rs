//! Inventories: lists of typed hashes, announced (`inv`), requested
//! (`getdata`) or reported missing (`notfound`).
use vstd::prelude::*;
use vstd::slice::slice_subrange;
use crate::codec::{push_all, read_array4, read_hash};
use crate::errors::MessageError;
use crate::messages::header_message::{header_message_for, HeaderMessage};
use crate::var_len_int::{
    lemma_varint_encode, lemma_varint_parse_prefix, lemma_varint_parse_result, varint_encode,
    varint_parse, varint_value, varint_wf, VarLenInt,
};

verus! {

pub const ENTRY_SIZE: usize = 36;

/// One entry of an inventory: its type and a hash.
#[derive(Debug, PartialEq, Eq)]
pub struct Entry {
    inv_type: [u8; 4],
    hash: [u8; 32],
}

/// An entry as plain values.
pub struct EntryView {
    pub inv_type: Seq<u8>,
    pub hash: Seq<u8>,
}

impl View for Entry {
    type V = EntryView;

    closed spec fn view(&self) -> EntryView {
        EntryView { inv_type: self.inv_type@, hash: self.hash@ }
    }
}

/// The type of an entry that names a block.
pub open spec fn block_type() -> Seq<u8> {
    seq![2u8, 0u8, 0u8, 0u8]
}

/// The type of an entry that names a transaction.
pub open spec fn transaction_type() -> Seq<u8> {
    seq![1u8, 0u8, 0u8, 0u8]
}

/// The 36 bytes of an entry.
pub open spec fn entry_bytes(e: EntryView) -> Seq<u8> {
    e.inv_type + e.hash
}

/// The entry held in the 36 bytes of `s` that start at `pos`.
pub open spec fn entry_parse(s: Seq<u8>, pos: int) -> EntryView {
    EntryView { inv_type: s.subrange(pos, pos + 4), hash: s.subrange(pos + 4, pos + 36) }
}

pub open spec fn entry_wf(e: EntryView) -> bool {
    e.inv_type.len() == 4 && e.hash.len() == 32
}

/// The bytes of a list of entries, one after the other.
pub open spec fn entries_bytes(s: Seq<EntryView>) -> Seq<u8>
    decreases s.len(),
{
    if s.len() == 0 {
        Seq::empty()
    } else {
        entries_bytes(s.drop_last()) + entry_bytes(s.last())
    }
}

/// An inventory as plain values: the bytes of its count and its entries.
pub struct InvView {
    pub count: Seq<u8>,
    pub inventory: Seq<EntryView>,
}

/// The bytes of an inventory.
pub open spec fn inv_bytes(v: InvView) -> Seq<u8> {
    v.count + entries_bytes(v.inventory)
}

/// An inventory whose count is well formed and counts its well-formed
/// entries.
pub open spec fn inv_consistent(v: InvView) -> bool {
    &&& varint_wf(v.count)
    &&& varint_value(v.count) == v.inventory.len()
    &&& forall|i: int| 0 <= i < v.inventory.len() ==> entry_wf(#[trigger] v.inventory[i])
}

/// The inventory that `s` holds: a count, then exactly that many entries of
/// 36 bytes, with nothing after them.
pub open spec fn inv_parse(s: Seq<u8>) -> Option<InvView> {
    match varint_parse(s) {
        None => None,
        Some(c) => if varint_value(c) * 36 + c.len() != s.len() {
            None
        } else {
            Some(
                InvView {
                    count: c,
                    inventory: Seq::new(
                        varint_value(c),
                        |i: int| entry_parse(s, c.len() + 36 * i),
                    ),
                },
            )
        },
    }
}

/// The entries of `type_` among `s`, as their hashes, in order.
pub open spec fn hashes_of_type(s: Seq<EntryView>, type_: Seq<u8>) -> Seq<Seq<u8>>
    decreases s.len(),
{
    if s.len() == 0 {
        Seq::empty()
    } else if s.last().inv_type == type_ {
        hashes_of_type(s.drop_last(), type_).push(s.last().hash)
    } else {
        hashes_of_type(s.drop_last(), type_)
    }
}

/// The entries of one type for each of `hashes`, in order.
pub open spec fn entries_of_type(hashes: Seq<[u8; 32]>, type_: Seq<u8>) -> Seq<EntryView> {
    Seq::new(hashes.len(), |i: int| EntryView { inv_type: type_, hash: hashes[i]@ })
}

/// An inventory.
#[derive(Debug, PartialEq, Eq)]
pub struct InvMessage {
    count: VarLenInt,
    inventory: Vec<Entry>,
}

impl View for InvMessage {
    type V = InvView;

    closed spec fn view(&self) -> InvView {
        InvView { count: self.count@, inventory: self.inventory@.map_values(|e: Entry| e@) }
    }
}

impl Entry {
    fn with_type(inv_type: [u8; 4], hash: [u8; 32]) -> (r: Entry)
        ensures
            r@ == (EntryView { inv_type: inv_type@, hash: hash@ }),
    {
        Entry { inv_type, hash }
    }

    /// An entry naming the block `hash`.
    pub fn as_block_entry(hash: [u8; 32]) -> (r: Entry)
        ensures
            r@ == (EntryView { inv_type: block_type(), hash: hash@ }),
    {
        let t = [2u8, 0u8, 0u8, 0u8];
        assert(t@ =~= block_type());
        Entry::with_type(t, hash)
    }

    /// An entry naming the transaction `hash`.
    pub fn as_transaction_entry(hash: [u8; 32]) -> (r: Entry)
        ensures
            r@ == (EntryView { inv_type: transaction_type(), hash: hash@ }),
    {
        let t = [1u8, 0u8, 0u8, 0u8];
        assert(t@ =~= transaction_type());
        Entry::with_type(t, hash)
    }

    /// The 36 bytes of the entry.
    pub fn to_bytes(&self) -> (r: Vec<u8>)
        ensures
            r@ == entry_bytes(self@),
    {
        let mut bytes: Vec<u8> = Vec::new();
        push_all(&mut bytes, self.inv_type.as_slice());
        push_all(&mut bytes, self.hash.as_slice());
        assert(bytes@ =~= entry_bytes(self@));
        bytes
    }

    /// Reads the entry in the 36 bytes of `slice` at `pos`.
    pub fn from_bytes(slice: &[u8], pos: usize) -> (r: Entry)
        requires
            pos + ENTRY_SIZE <= slice@.len(),
        ensures
            r@ == entry_parse(slice@, pos as int),
    {
        let n = slice.len();
        let inv_type = read_array4(slice, pos);
        let hash = read_hash(slice, pos + 4);
        Entry { inv_type, hash }
    }

    /// Whether the entry names a block.
    pub fn is_block_type(&self) -> (r: bool)
        ensures
            r == (self@.inv_type == block_type()),
    {
        let r = self.inv_type[0] == 2 && self.inv_type[1] == 0 && self.inv_type[2] == 0
            && self.inv_type[3] == 0;
        assert(r ==> self.inv_type@ =~= block_type());
        r
    }

    /// Whether the entry names a transaction.
    pub fn is_transaction_type(&self) -> (r: bool)
        ensures
            r == (self@.inv_type == transaction_type()),
    {
        let r = self.inv_type[0] == 1 && self.inv_type[1] == 0 && self.inv_type[2] == 0
            && self.inv_type[3] == 0;
        assert(r ==> self.inv_type@ =~= transaction_type());
        r
    }

    /// The hash the entry names.
    pub fn hash(&self) -> (r: [u8; 32])
        ensures
            r@ == self@.hash,
    {
        self.hash
    }
}

impl InvMessage {
    /// An inventory of `inventory`; the count is the shortest encoding of its
    /// length.
    pub fn new(inventory: Vec<Entry>) -> (r: InvMessage)
        ensures
            r@ == (InvView {
                count: varint_encode(inventory@.len()),
                inventory: inventory@.map_values(|e: Entry| e@),
            }),
    {
        InvMessage { count: VarLenInt::new(inventory.len()), inventory }
    }

    fn of_type(hashes: Vec<[u8; 32]>, block: bool) -> (r: InvMessage)
        ensures
            r@ == (InvView {
                count: varint_encode(hashes@.len()),
                inventory: entries_of_type(
                    hashes@,
                    if block {
                        block_type()
                    } else {
                        transaction_type()
                    },
                ),
            }),
    {
        let ghost t = if block {
            block_type()
        } else {
            transaction_type()
        };
        let mut inventory: Vec<Entry> = Vec::new();
        let mut i: usize = 0;
        while i < hashes.len()
            invariant
                i <= hashes@.len(),
                t == (if block {
                    block_type()
                } else {
                    transaction_type()
                }),
                inventory@.len() == i,
                forall|j: int| 0 <= j < i ==> #[trigger] inventory@[j]@ == entries_of_type(hashes@, t)[j],
            decreases hashes@.len() - i,
        {
            let e = if block {
                Entry::as_block_entry(hashes[i])
            } else {
                Entry::as_transaction_entry(hashes[i])
            };
            inventory.push(e);
            i = i + 1;
        }
        assert(inventory@.map_values(|e: Entry| e@) =~= entries_of_type(hashes@, t));
        InvMessage { count: VarLenInt::new(hashes.len()), inventory }
    }

    /// An inventory of blocks, one entry for each hash, in order.
    pub fn create_message_inventory_block_type(inventory_entries: Vec<[u8; 32]>) -> (r:
        InvMessage)
        ensures
            r@ == (InvView {
                count: varint_encode(inventory_entries@.len()),
                inventory: entries_of_type(inventory_entries@, block_type()),
            }),
    {
        Self::of_type(inventory_entries, true)
    }

    /// An inventory of transactions, one entry for each hash, in order.
    pub fn create_message_inventory_transaction_type(inventory_entries: Vec<[u8; 32]>) -> (r:
        InvMessage)
        ensures
            r@ == (InvView {
                count: varint_encode(inventory_entries@.len()),
                inventory: entries_of_type(inventory_entries@, transaction_type()),
            }),
    {
        Self::of_type(inventory_entries, false)
    }

    /// The bytes of the inventory: its count, then its entries.
    pub fn to_bytes(&self) -> (r: Vec<u8>)
        ensures
            r@ == inv_bytes(self@),
    {
        let mut bytes_vector = self.count.to_bytes();
        let ghost start = bytes_vector@;
        let ghost entries = self@.inventory;
        let mut i: usize = 0;
        while i < self.inventory.len()
            invariant
                i <= self.inventory@.len(),
                entries == self.inventory@.map_values(|e: Entry| e@),
                bytes_vector@ == start + entries_bytes(entries.take(i as int)),
            decreases self.inventory@.len() - i,
        {
            let b = self.inventory[i].to_bytes();
            push_all(&mut bytes_vector, b.as_slice());
            proof {
                assert(entries.take(i + 1).drop_last() =~= entries.take(i as int));
                assert(entries.take(i + 1).last() == self.inventory@[i as int]@);
                assert(bytes_vector@ =~= start + entries_bytes(entries.take(i + 1)));
            }
            i = i + 1;
        }
        assert(entries.take(i as int) =~= entries);
        bytes_vector
    }

    /// Reads an inventory: a count, then exactly that many entries, with
    /// nothing after them. Anything else is an error.
    pub fn from_bytes(slice: &[u8]) -> (r: Result<InvMessage, MessageError>)
        ensures
            match r {
                Ok(m) => inv_parse(slice@) == Some(m@),
                Err(e) => inv_parse(slice@) is None && e == MessageError::ErrorCreatingInvMessage,
            },
    {
        let count = match VarLenInt::from_bytes(slice) {
            Some(c) => c,
            None => return Err(MessageError::ErrorCreatingInvMessage),
        };
        proof {
            lemma_varint_parse_result(slice@);
        }
        let n = count.to_u64();
        let amt = count.amount_of_bytes();
        let len = slice.len();
        if n > ((len - amt) as u64) / 36 || (n as usize) * 36 + amt != len {
            return Err(MessageError::ErrorCreatingInvMessage);
        }
        let n = n as usize;
        let ghost s = slice@;
        let mut inventory: Vec<Entry> = Vec::new();
        let mut i: usize = 0;
        while i < n
            invariant
                i <= n,
                n * 36 + amt == len,
                len == s.len(),
                s == slice@,
                inventory@.len() == i,
                forall|j: int| 0 <= j < i ==> #[trigger] inventory@[j]@ == entry_parse(s, amt + 36 * j),
            decreases n - i,
        {
            let e = Entry::from_bytes(slice, amt + 36 * i);
            inventory.push(e);
            i = i + 1;
        }
        let m = InvMessage { count, inventory };
        assert(m@.inventory =~= Seq::new(n as nat, |k: int| entry_parse(s, amt + 36 * k)));
        Ok(m)
    }

    /// The header announcing this inventory under `inv`.
    pub fn get_header_message(&self) -> (r: Result<HeaderMessage, MessageError>)
        ensures
            r matches Ok(h) && h@ == header_message_for(inv_command(), inv_bytes(self@)),
    {
        let payload = self.to_bytes();
        let name = [105u8, 110u8, 118u8, 0u8, 0u8, 0u8, 0u8, 0u8, 0u8, 0u8, 0u8, 0u8];
        assert(name@ =~= inv_command());
        Ok(HeaderMessage::with_command(name, payload.as_slice()))
    }

    /// The hashes of the entries that name blocks, in order.
    pub fn get_block_hashes(&self) -> (r: Vec<[u8; 32]>)
        ensures
            r@.map_values(|h: [u8; 32]| h@) == hashes_of_type(self@.inventory, block_type()),
    {
        self.hashes_of(true)
    }

    /// The hashes of the entries that name transactions, in order.
    pub fn get_transaction_hashes(&self) -> (r: Vec<[u8; 32]>)
        ensures
            r@.map_values(|h: [u8; 32]| h@) == hashes_of_type(
                self@.inventory,
                transaction_type(),
            ),
    {
        self.hashes_of(false)
    }

    fn hashes_of(&self, block: bool) -> (r: Vec<[u8; 32]>)
        ensures
            r@.map_values(|h: [u8; 32]| h@) == hashes_of_type(
                self@.inventory,
                if block {
                    block_type()
                } else {
                    transaction_type()
                },
            ),
    {
        let ghost t = if block {
            block_type()
        } else {
            transaction_type()
        };
        let ghost entries = self@.inventory;
        let mut hashes: Vec<[u8; 32]> = Vec::new();
        let mut i: usize = 0;
        while i < self.inventory.len()
            invariant
                i <= self.inventory@.len(),
                entries == self.inventory@.map_values(|e: Entry| e@),
                t == (if block {
                    block_type()
                } else {
                    transaction_type()
                }),
                hashes@.map_values(|h: [u8; 32]| h@) =~= hashes_of_type(
                    entries.take(i as int),
                    t,
                ),
            decreases self.inventory@.len() - i,
        {
            let e = &self.inventory[i];
            let wanted = if block {
                e.is_block_type()
            } else {
                e.is_transaction_type()
            };
            assert(entries.take(i + 1).drop_last() =~= entries.take(i as int));
            assert(entries.take(i + 1).last() == e@);
            if wanted {
                hashes.push(e.hash());
            }
            i = i + 1;
            assert(hashes@.map_values(|h: [u8; 32]| h@) =~= hashes_of_type(
                entries.take(i as int),
                t,
            ));
        }
        assert(entries.take(i as int) =~= entries);
        hashes
    }

    /// How many entries the inventory holds.
    pub fn len(&self) -> (r: usize)
        ensures
            r == self@.inventory.len(),
    {
        self.inventory.len()
    }
}

/// The command name of an inventory.
pub open spec fn inv_command() -> Seq<u8> {
    seq![105u8, 110u8, 118u8, 0u8, 0u8, 0u8, 0u8, 0u8, 0u8, 0u8, 0u8, 0u8]
}

/// The entries' bytes are 36 bytes each, and each entry is read back from
/// its place.
pub proof fn lemma_entries_bytes(s: Seq<EntryView>)
    requires
        forall|i: int| 0 <= i < s.len() ==> entry_wf(#[trigger] s[i]),
    ensures
        entries_bytes(s).len() == 36 * s.len(),
        forall|i: int| 0 <= i < s.len() ==> entry_parse(entries_bytes(s), 36 * i) == #[trigger] s[i],
    decreases s.len(),
{
    if s.len() > 0 {
        let p = s.drop_last();
        lemma_entries_bytes(p);
        let b = entries_bytes(s);
        assert(b == entries_bytes(p) + entry_bytes(s.last()));
        assert forall|i: int| 0 <= i < s.len() implies entry_parse(b, 36 * i) == #[trigger] s[i] by {
            if i < s.len() - 1 {
                assert(p[i] == s[i]);
                assert(b.subrange(36 * i, 36 * i + 4) =~= entries_bytes(p).subrange(36 * i, 36 * i + 4));
                assert(b.subrange(36 * i + 4, 36 * i + 36) =~= entries_bytes(p).subrange(36 * i + 4, 36 * i + 36));
            } else {
                assert(b.subrange(36 * i, 36 * i + 4) =~= s.last().inv_type);
                assert(b.subrange(36 * i + 4, 36 * i + 36) =~= s.last().hash);
            }
        }
    }
}

/// Reading the bytes of a consistent inventory gives it back.
pub proof fn lemma_inv_roundtrip(v: InvView)
    requires
        inv_consistent(v),
    ensures
        inv_parse(inv_bytes(v)) == Some(v),
{
    lemma_entries_bytes(v.inventory);
    lemma_varint_parse_prefix(v.count, entries_bytes(v.inventory));
    let b = inv_bytes(v);
    let c = v.count;
    let parsed = Seq::new(varint_value(c), |i: int| entry_parse(b, c.len() + 36 * i));
    assert forall|i: int| 0 <= i < v.inventory.len() implies #[trigger] parsed[i] == v.inventory[i] by {
        let e = entries_bytes(v.inventory);
        assert(entry_parse(e, 36 * i) == v.inventory[i]);
        assert(b.subrange(c.len() + 36 * i, c.len() + 36 * i + 4) =~= e.subrange(36 * i, 36 * i + 4));
        assert(b.subrange(c.len() + 36 * i + 4, c.len() + 36 * i + 36) =~= e.subrange(36 * i + 4, 36 * i + 36));
    }
    assert(parsed =~= v.inventory);
}

/// The hashes of one type in a list of entries all of that type are the
/// hashes the entries were made from.
pub proof fn lemma_hashes_of_entries_of_type(hashes: Seq<[u8; 32]>, type_: Seq<u8>)
    ensures
        hashes_of_type(entries_of_type(hashes, type_), type_) == hashes.map_values(
            |h: [u8; 32]| h@,
        ),
    decreases hashes.len(),
{
    if hashes.len() > 0 {
        let p = hashes.drop_last();
        lemma_hashes_of_entries_of_type(p, type_);
        assert(entries_of_type(hashes, type_).drop_last() =~= entries_of_type(p, type_));
        assert(hashes.map_values(|h: [u8; 32]| h@) =~= p.map_values(|h: [u8; 32]| h@).push(
            hashes.last()@,
        ));
    } else {
        assert(hashes.map_values(|h: [u8; 32]| h@) =~= Seq::empty());
    }
}

} // verus!
