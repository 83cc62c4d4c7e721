//! Constraints for conditional submission, and their JSON form.

use vstd::prelude::*;
use vstd::string::*;

use crate::json::{string, write_member, write_object};
use crate::sorted_map::SortedMap;
use crate::text::{chars_of, push_numeral};

verus! {

/// Whether a character is a hexadecimal digit of either case.
pub open spec fn is_hex_char(c: char) -> bool {
    '0' <= c <= '9' || 'a' <= c <= 'f' || 'A' <= c <= 'F'
}

/// An ASCII capital as the small letter, anything else as it is.
pub open spec fn lowered(c: char) -> char {
    if 'A' <= c <= 'Z' {
        (c as int + 32) as char
    } else {
        c
    }
}

/// Whether a text is plain prefixed hex of at most 32 bytes.
pub open spec fn is_short_hex(value: Seq<char>) -> bool {
    &&& value.len() >= 2
    &&& value[0] == '0'
    &&& value[1] == 'x' || value[1] == 'X'
    &&& value.len() <= 66
    &&& forall|i: int| 2 <= i < value.len() ==> is_hex_char(#[trigger] value[i])
}

/// Short hex widened to a full 32 bytes, in small letters; anything else as it
/// is.
pub open spec fn padded(value: Seq<char>) -> Seq<char> {
    if is_short_hex(value) {
        seq!['0', 'x'] + Seq::new((66 - value.len()) as nat, |i: int| '0') + value.skip(2).map_values(
            |c: char| lowered(c),
        )
    } else {
        value
    }
}

/// Lower an ASCII capital.
fn lower(c: char) -> (r: char)
    ensures
        r == lowered(c),
{
    if 'A' <= c && c <= 'Z' {
        (c as u8 + 32) as char
    } else {
        c
    }
}

/// Whether a character is a hexadecimal digit of either case.
fn is_hex(c: char) -> (b: bool)
    ensures
        b == is_hex_char(c),
{
    ('0' <= c && c <= '9') || ('a' <= c && c <= 'f') || ('A' <= c && c <= 'F')
}

/// Widen a hex string to the 32 bytes Nitro's `common.Hash` decoder requires.
///
/// Anything that is not plain `0x`-prefixed hex of at most 32 bytes is passed
/// through untouched, so a genuinely malformed value still surfaces as a
/// server-side error rather than being silently reshaped into a valid-looking
/// but wrong one.
pub fn pad_hash(value: &str) -> (r: String)
    ensures
        r@ == padded(value@),
{
    let chars = chars_of(value);
    if chars.len() < 2 || chars.len() > 66 || chars[0] != '0' || (chars[1] != 'x' && chars[1]
        != 'X') {
        return value.to_owned();
    }
    let mut i: usize = 2;
    while i < chars.len()
        invariant
            2 <= i <= chars@.len(),
            chars@ == value@,
            forall|k: int| 2 <= k < i ==> is_hex_char(#[trigger] chars@[k]),
        decreases chars@.len() - i,
    {
        if !is_hex(chars[i]) {
            return value.to_owned();
        }
        i += 1;
    }
    let mut r = String::new();
    r.push('0');
    r.push('x');
    let ghost zeros = Seq::new((66 - chars@.len()) as nat, |i: int| '0');
    let mut n: usize = 66 - chars.len();
    while n > 0
        invariant
            n <= zeros.len(),
            zeros == Seq::new(zeros.len(), |i: int| '0'),
            r@ == seq!['0', 'x'] + zeros.take(zeros.len() - n),
        decreases n,
    {
        r.push('0');
        n -= 1;
        assert(r@ =~= seq!['0', 'x'] + zeros.take(zeros.len() - n));
    }
    let ghost digits = value@.skip(2).map_values(|c: char| lowered(c));
    let mut i: usize = 2;
    assert(r@ =~= seq!['0', 'x'] + zeros + digits.take(0));
    while i < chars.len()
        invariant
            2 <= i <= chars@.len(),
            chars@ == value@,
            digits == value@.skip(2).map_values(|c: char| lowered(c)),
            r@ == seq!['0', 'x'] + zeros + digits.take(i - 2),
        decreases chars@.len() - i,
    {
        r.push(lower(chars[i]));
        i += 1;
        assert(r@ =~= seq!['0', 'x'] + zeros + digits.take(i - 2));
    }
    assert(digits.take(i - 2) =~= digits);
    r
}

/// Short hex comes out as 66 characters of which the digits are small, and
/// widening again changes nothing.
pub proof fn padding_settles(value: Seq<char>)
    ensures
        is_short_hex(value) ==> is_short_hex(padded(value)) && padded(value).len() == 66,
        padded(padded(value)) == padded(value),
{
    if is_short_hex(value) {
        let p = padded(value);
        assert forall|i: int| 2 <= i < p.len() implies {
            &&& is_hex_char(#[trigger] p[i])
            &&& lowered(p[i]) == p[i]
        } by {
            if i >= 68 - value.len() {
                let j = i - (66 - value.len());
                assert(p[i] == lowered(value[j]));
                assert(is_hex_char(value[j]));
            }
        }
        assert(padded(p) =~= p);
    }
}

/// A text that is not prefixed hex of at most 32 bytes is left as it is.
pub proof fn only_short_hex_is_padded(value: Seq<char>, i: int)
    ensures
        value.len() < 2 ==> padded(value) == value,
        value.len() > 66 ==> padded(value) == value,
        value.len() >= 2 && value[0] != '0' ==> padded(value) == value,
        value.len() >= 2 && value[1] != 'x' && value[1] != 'X' ==> padded(value) == value,
        2 <= i < value.len() && !('0' <= value[i] <= '9' || 'a' <= value[i] <= 'f' || 'A'
            <= value[i] <= 'F') ==> padded(value) == value,
{
}

/// The value of a hexadecimal digit of either case.
pub open spec fn hex_digit_value(c: char) -> int {
    if '0' <= c <= '9' {
        c as int - '0' as int
    } else if 'a' <= c <= 'f' {
        c as int - 'a' as int + 10
    } else {
        c as int - 'A' as int + 10
    }
}

/// The number that hexadecimal digits of either case stand for.
pub open spec fn hex_number(digits: Seq<char>) -> int
    decreases digits.len(),
{
    if digits.len() == 0 {
        0
    } else {
        16 * hex_number(digits.drop_last()) + hex_digit_value(digits.last())
    }
}

/// Widening keeps the number: a short hash comes out as 64 small digits that stand
/// for the same number, and anything else comes out as it went in.
pub proof fn padding_keeps_the_number(value: Seq<char>)
    ensures
        is_short_hex(value) ==> {
            &&& padded(value).len() == 66
            &&& padded(value)[0] == '0'
            &&& padded(value)[1] == 'x'
            &&& hex_number(padded(value).skip(2)) == hex_number(value.skip(2))
            &&& forall|i: int|
                2 <= i < 66 ==> ('0' <= #[trigger] padded(value)[i] <= '9' || 'a' <= padded(
                    value,
                )[i] <= 'f')
        },
        !is_short_hex(value) ==> padded(value) == value,
{
    if is_short_hex(value) {
        padding_settles(value);
        let digits = value.skip(2);
        let zeros = Seq::new((66 - value.len()) as nat, |i: int| '0');
        let small = digits.map_values(|c: char| lowered(c));
        assert(padded(value).skip(2) =~= zeros + small);
        assert forall|i: int| 0 <= i < digits.len() implies is_hex_char(#[trigger] digits[i]) by {
            assert(is_hex_char(value[i + 2]));
        }
        zeros_add_nothing(zeros, digits);
        let p = padded(value);
        assert forall|i: int| 2 <= i < 66 implies ('0' <= #[trigger] p[i] <= '9' || 'a' <= p[i]
            <= 'f') by {
            assert(p.skip(2)[i - 2] == p[i]);
            if i - 2 >= zeros.len() {
                assert(is_hex_char(digits[i - 2 - zeros.len()]));
            }
        }
    }
}

/// Zeros in front, and small letters for capitals, leave the number as it is.
proof fn zeros_add_nothing(zeros: Seq<char>, digits: Seq<char>)
    requires
        forall|i: int| 0 <= i < zeros.len() ==> #[trigger] zeros[i] == '0',
        forall|i: int| 0 <= i < digits.len() ==> is_hex_char(#[trigger] digits[i]),
    ensures
        hex_number(zeros + digits.map_values(|c: char| lowered(c))) == hex_number(digits),
    decreases digits.len(), zeros.len(),
{
    let small = digits.map_values(|c: char| lowered(c));
    let all = zeros + small;
    if digits.len() > 0 {
        let front = digits.drop_last();
        zeros_add_nothing(zeros, front);
        assert(all.drop_last() =~= zeros + front.map_values(|c: char| lowered(c)));
        assert(all.last() == lowered(digits.last()));
        assert(is_hex_char(digits[digits.len() - 1]));
    } else if zeros.len() > 0 {
        zeros_add_nothing(zeros.drop_last(), digits);
        assert(all.drop_last() =~= zeros.drop_last() + small);
        assert(all.last() == '0');
    } else {
        assert(all =~= digits);
    }
}

/// What one account is expected to hold.
pub enum Expectation {
    StorageRoot(Seq<char>),
    Slots(Map<Seq<char>, Seq<char>>),
}

/// A storage expectation for one account.
#[derive(Clone, Debug)]
pub enum KnownAccount {
    /// The account's entire storage root must equal this hash.
    StorageRoot(String),
    /// These individual slots must hold these values.
    Slots(SortedMap<String>),
}

/// The slot values a map holds, as their characters.
pub open spec fn slot_values(slots: SortedMap<String>) -> Map<Seq<char>, Seq<char>> {
    slots@.map_values(|v: String| v@)
}

impl View for KnownAccount {
    type V = Expectation;

    open spec fn view(&self) -> Expectation {
        match *self {
            KnownAccount::StorageRoot(root) => Expectation::StorageRoot(root@),
            KnownAccount::Slots(slots) => Expectation::Slots(slot_values(slots)),
        }
    }
}

/// Constraints for `eth_sendRawTransactionConditional`.
///
/// The sequencer checks every constraint before ordering the transaction and
/// refuses it outright if one does not hold, rather than including it against
/// state that has moved. The refusal is explicit and leaves the nonce
/// unconsumed. All fields are optional; an empty value means "no constraint".
///
/// Addresses and hashes are passed as `0x`-prefixed strings.
///
/// Storage roots, slot keys and slot values are widened to a full 32 bytes on
/// insertion. Nitro decodes them into Go's `common.Hash` and rejects anything
/// shorter.
#[derive(Clone, Debug)]
pub struct ConditionalOptions {
    /// Per-account storage expectations, keyed by `0x`-prefixed address.
    pub known_accounts: SortedMap<KnownAccount>,
    /// Earliest parent-chain block the transaction may be included in.
    ///
    /// Counted on the parent chain, not on this one: a bound derived from the
    /// L2 height is far above anything the parent chain will reach, and the
    /// constraint silently never binds.
    pub block_number_min: Option<u64>,
    /// Latest parent-chain block the transaction may be included in.
    pub block_number_max: Option<u64>,
    /// Earliest block timestamp, as a Unix second count.
    pub timestamp_min: Option<u64>,
    /// Latest block timestamp, as a Unix second count.
    pub timestamp_max: Option<u64>,
}

/// The slots expected of an account: none where it is not constrained, or only
/// by its whole storage root.
pub open spec fn slots_of(accounts: Map<Seq<char>, Expectation>, address: Seq<char>) -> Map<
    Seq<char>,
    Seq<char>,
> {
    if accounts.contains_key(address) {
        match accounts[address] {
            Expectation::Slots(slots) => slots,
            Expectation::StorageRoot(_) => Map::empty(),
        }
    } else {
        Map::empty()
    }
}

/// The expectations with a storage root for one account added.
pub open spec fn with_root(
    accounts: Map<Seq<char>, Expectation>,
    address: Seq<char>,
    root: Seq<char>,
) -> Map<Seq<char>, Expectation> {
    accounts.insert(address, Expectation::StorageRoot(padded(root)))
}

/// The expectations with one slot of an account added.
pub open spec fn with_slot(
    accounts: Map<Seq<char>, Expectation>,
    address: Seq<char>,
    slot: Seq<char>,
    value: Seq<char>,
) -> Map<Seq<char>, Expectation> {
    accounts.insert(
        address,
        Expectation::Slots(slots_of(accounts, address).insert(padded(slot), padded(value))),
    )
}

/// Slots of one account accumulate: a second one leaves the first in place, and
/// for the same slot the later value stands.
pub proof fn slots_accumulate(
    accounts: Map<Seq<char>, Expectation>,
    address: Seq<char>,
    slot1: Seq<char>,
    value1: Seq<char>,
    slot2: Seq<char>,
    value2: Seq<char>,
)
    ensures
        ({
            let slots = slots_of(
                with_slot(with_slot(accounts, address, slot1, value1), address, slot2, value2),
                address,
            );
            &&& slots.contains_pair(padded(slot2), padded(value2))
            &&& padded(slot1) != padded(slot2) ==> slots.contains_pair(
                padded(slot1),
                padded(value1),
            )
        }),
{
}

/// A whole-root expectation and slot expectations exclude each other: of the two
/// the later one stands, alone.
pub proof fn the_later_kind_of_expectation_wins(
    accounts: Map<Seq<char>, Expectation>,
    address: Seq<char>,
    root: Seq<char>,
    slot: Seq<char>,
    value: Seq<char>,
)
    ensures
        with_root(with_slot(accounts, address, slot, value), address, root) == with_root(
            accounts,
            address,
            root,
        ),
        with_slot(with_root(accounts, address, root), address, slot, value)[address]
            == Expectation::Slots(map![padded(slot) => padded(value)]),
{
    assert(with_root(with_slot(accounts, address, slot, value), address, root) =~= with_root(
        accounts,
        address,
        root,
    ));
    assert(slots_of(with_root(accounts, address, root), address).insert(padded(slot), padded(value))
        =~= map![padded(slot) => padded(value)]);
}

/// A storage root stands under its address as it was given, widened, and a slot
/// stands among the slots of its address, whose other slots stay as they were.
pub proof fn what_was_required_stands(
    accounts: Map<Seq<char>, Expectation>,
    address: Seq<char>,
    root: Seq<char>,
    slot: Seq<char>,
    value: Seq<char>,
    other: Seq<char>,
)
    requires
        other != padded(slot),
    ensures
        with_root(accounts, address, root).contains_pair(
            address,
            Expectation::StorageRoot(padded(root)),
        ),
        with_slot(accounts, address, slot, value)[address] matches Expectation::Slots(slots) && {
            &&& slots.contains_pair(padded(slot), padded(value))
            &&& slots.contains_key(other) <==> (accounts.contains_key(address)
                && accounts[address] is Slots && accounts[address]->Slots_0.contains_key(other))
            &&& slots.contains_key(other) ==> slots[other] == accounts[address]->Slots_0[other]
        },
{
}

/// What is expected of one account does not touch another.
pub proof fn accounts_are_independent(
    accounts: Map<Seq<char>, Expectation>,
    address: Seq<char>,
    other: Seq<char>,
    root: Seq<char>,
    slot: Seq<char>,
    value: Seq<char>,
)
    requires
        address != other,
    ensures
        with_root(accounts, address, root).contains_key(other) <==> accounts.contains_key(other),
        with_slot(accounts, address, slot, value).contains_key(other) <==> accounts.contains_key(
            other,
        ),
        accounts.contains_key(other) ==> {
            &&& with_root(accounts, address, root)[other] == accounts[other]
            &&& with_slot(accounts, address, slot, value)[other] == accounts[other]
        },
{
}

impl KnownAccount {
    /// Slots are in key order.
    pub open spec fn is_sorted(self) -> bool {
        self matches KnownAccount::Slots(slots) ==> crate::sorted_map::in_key_order(slots.entries())
    }
}

impl ConditionalOptions {
    /// Accounts, and the slots of each, are in key order.
    pub open spec fn is_sorted(self) -> bool {
        &&& crate::sorted_map::in_key_order(self.known_accounts.entries())
        &&& forall|i: int|
            0 <= i < self.known_accounts.entries().len() ==> (
            #[trigger] self.known_accounts.entries()[i]).1.is_sorted()
    }
}

/// Putting one account in its place keeps the order, where what is put there has
/// it too.
proof fn stays_sorted(
    before: ConditionalOptions,
    address: Seq<char>,
    account: KnownAccount,
    after: ConditionalOptions,
)
    requires
        before.is_sorted(),
        account.is_sorted(),
        crate::sorted_map::in_key_order(after.known_accounts.entries()),
        after.known_accounts@ == before.known_accounts@.insert(address, account),
    ensures
        after.is_sorted(),
{
    let (x, y) = (before.known_accounts.entries(), after.known_accounts.entries());
    assert forall|i: int| 0 <= i < y.len() implies (#[trigger] y[i]).1.is_sorted() by {
        crate::sorted_map::map_of_entry(y, i);
        let key = y[i].0;
        if key != address {
            assert(before.known_accounts@.contains_key(key));
            let j = choose|j: int| 0 <= j < x.len() && (#[trigger] x[j]).0 == key;
            crate::sorted_map::map_of_entry(x, j);
            assert(x[j].1.is_sorted());
        }
    }
}

impl ConditionalOptions {
    /// What each constrained account is expected to hold.
    pub open spec fn accounts(self) -> Map<Seq<char>, Expectation> {
        self.known_accounts@.map_values(|a: KnownAccount| a@)
    }

    /// Everything but the account expectations is the same.
    pub open spec fn same_ranges(self, other: ConditionalOptions) -> bool {
        &&& self.block_number_min == other.block_number_min
        &&& self.block_number_max == other.block_number_max
        &&& self.timestamp_min == other.timestamp_min
        &&& self.timestamp_max == other.timestamp_max
    }

    /// An empty constraint set.
    #[must_use]
    pub fn new() -> (o: ConditionalOptions)
        ensures
            o.is_sorted(),
            o.accounts() == Map::<Seq<char>, Expectation>::empty(),
            o.known_accounts@ == Map::<Seq<char>, KnownAccount>::empty(),
            o.known_accounts.entries().len() == 0,
            o.block_number_min is None,
            o.block_number_max is None,
            o.timestamp_min is None,
            o.timestamp_max is None,
    {
        let o = ConditionalOptions {
            known_accounts: SortedMap::new(),
            block_number_min: None,
            block_number_max: None,
            timestamp_min: None,
            timestamp_max: None,
        };
        assert(o.accounts() =~= Map::<Seq<char>, Expectation>::empty());
        o
    }

    /// Require an account's whole storage root to match `root`.
    #[must_use]
    pub fn with_storage_root(self, address: &str, root: &str) -> (o: ConditionalOptions)
        ensures
            self.is_sorted() ==> o.is_sorted(),
            o.accounts() == with_root(self.accounts(), address@, root@),
            o.same_ranges(self),
    {
        let ghost before = self;
        let mut o = self;
        let account = KnownAccount::StorageRoot(pad_hash(root));
        let ghost added = account;
        o.known_accounts = o.known_accounts.insert(address, account);
        proof {
            if before.is_sorted() {
                stays_sorted(before, address@, added, o);
            }
        }
        assert(o.accounts() =~= with_root(before.accounts(), address@, root@));
        o
    }

    /// Require a specific storage slot of an account to hold `value`.
    ///
    /// Repeated calls for the same address accumulate slots. A slot constraint
    /// and a whole-root constraint are mutually exclusive; the most recent call
    /// wins.
    #[must_use]
    pub fn with_storage_slot(self, address: &str, slot: &str, value: &str) -> (o: ConditionalOptions)
        ensures
            self.is_sorted() ==> o.is_sorted(),
            o.accounts() == with_slot(self.accounts(), address@, slot@, value@),
            o.same_ranges(self),
    {
        let ghost before = self;
        let mut o = self;
        let (rest, existing) = o.known_accounts.take(address);
        let slots: SortedMap<String> = match existing {
            Some(KnownAccount::Slots(slots)) => slots,
            Some(KnownAccount::StorageRoot(_)) => SortedMap::new(),
            None => SortedMap::new(),
        };
        assert(slot_values(slots) =~= slots_of(before.accounts(), address@));
        let slots = slots.insert(&pad_hash(slot), pad_hash(value));
        assert(slot_values(slots) =~= slots_of(before.accounts(), address@).insert(
            padded(slot@),
            padded(value@),
        ));
        let ghost added = KnownAccount::Slots(slots);
        o.known_accounts = rest.insert(address, KnownAccount::Slots(slots));
        proof {
            assert(o.known_accounts@ =~= before.known_accounts@.insert(address@, added));
            if before.is_sorted() {
                stays_sorted(before, address@, added, o);
            }
        }
        assert(o.accounts() =~= with_slot(before.accounts(), address@, slot@, value@));
        o
    }

    /// Restrict inclusion to a parent-chain block range.
    ///
    /// Both bounds are parent-chain heights.
    #[must_use]
    pub fn with_block_range(self, min: Option<u64>, max: Option<u64>) -> (o: ConditionalOptions)
        ensures
            self.is_sorted() ==> o.is_sorted(),
            o == (ConditionalOptions { block_number_min: min, block_number_max: max, ..self }),
    {
        let mut o = self;
        o.block_number_min = min;
        o.block_number_max = max;
        o
    }

    /// Restrict inclusion to a timestamp range, in Unix seconds.
    #[must_use]
    pub fn with_timestamp_range(self, min: Option<u64>, max: Option<u64>) -> (o: ConditionalOptions)
        ensures
            self.is_sorted() ==> o.is_sorted(),
            o == (ConditionalOptions { timestamp_min: min, timestamp_max: max, ..self }),
    {
        let mut o = self;
        o.timestamp_min = min;
        o.timestamp_max = max;
        o
    }
}

impl Default for ConditionalOptions {
    fn default() -> (o: ConditionalOptions)
        ensures
            o.is_sorted(),
            o.accounts() == Map::<Seq<char>, Expectation>::empty(),
            o.block_number_min is None,
            o.block_number_max is None,
            o.timestamp_min is None,
            o.timestamp_max is None,
    {
        ConditionalOptions::new()
    }
}

/// A number as a minimal hex quantity.
pub open spec fn quantity_text(n: u64) -> Seq<char> {
    seq!['0', 'x'] + crate::text::numeral(n as nat, 16)
}

/// JSON-RPC encodes block numbers as minimal hex quantities.
pub fn quantity(n: u64) -> (s: String)
    ensures
        s@ == quantity_text(n),
{
    let mut s = String::new();
    s.push('0');
    s.push('x');
    push_numeral(&mut s, n, 16);
    assert(s@ =~= quantity_text(n));
    s
}

/// The members for slots: each key with its value.
pub open spec fn slot_members(entries: Seq<(Seq<char>, String)>) -> Seq<Seq<u8>> {
    entries.map_values(
        |e: (Seq<char>, String)| crate::json::member(e.0, crate::json::json_string(e.1@)),
    )
}

/// An account expectation in JSON: a root is the string itself, slots are an
/// object.
pub open spec fn account_json(a: KnownAccount) -> Seq<u8> {
    match a {
        KnownAccount::StorageRoot(root) => crate::json::json_string(root@),
        KnownAccount::Slots(slots) => crate::json::object(slot_members(slots.entries())),
    }
}

/// The members for accounts: each address with what is expected of it.
pub open spec fn account_members(entries: Seq<(Seq<char>, KnownAccount)>) -> Seq<Seq<u8>> {
    entries.map_values(|e: (Seq<char>, KnownAccount)| crate::json::member(e.0, account_json(e.1)))
}

/// A bound as a member, left out where there is none.
pub open spec fn bound_member(name: Seq<char>, bound: Option<u64>, hex: bool) -> Seq<Seq<u8>> {
    match bound {
        Some(n) => seq![
            crate::json::member(
                name,
                if hex {
                    crate::json::json_string(quantity_text(n))
                } else {
                    vstd::utf8::encode_utf8(crate::text::decimal(n as nat))
                },
            ),
        ],
        None => seq![],
    }
}

impl ConditionalOptions {
    /// The accounts as a member, left out where there are none.
    pub open spec fn accounts_member(self) -> Seq<Seq<u8>> {
        if self.known_accounts.entries().len() == 0 {
            seq![]
        } else {
            seq![
                crate::json::member(
                    "knownAccounts"@,
                    crate::json::object(account_members(self.known_accounts.entries())),
                ),
            ]
        }
    }

    /// The constraints in JSON. Accounts and slots come in key order.
    pub open spec fn json(self) -> Seq<u8> {
        crate::json::object(
            self.accounts_member() + bound_member("blockNumberMin"@, self.block_number_min, true)
                + bound_member("blockNumberMax"@, self.block_number_max, true) + bound_member(
                "timestampMin"@,
                self.timestamp_min,
                false,
            ) + bound_member("timestampMax"@, self.timestamp_max, false),
        )
    }

    /// Write the constraints in JSON.
    #[must_use]
    pub fn to_json(&self) -> (v: Vec<u8>)
        ensures
            v@ == self.json(),
    {
        let mut members: Vec<Vec<u8>> = Vec::new();
        if self.known_accounts.len() > 0 {
            let accounts = accounts_to_json(&self.known_accounts);
            members.push(write_member("knownAccounts", accounts.as_slice()));
        }
        assert(crate::json::parts_of(members@) =~= self.accounts_member());
        push_bound(&mut members, "blockNumberMin", self.block_number_min, true);
        push_bound(&mut members, "blockNumberMax", self.block_number_max, true);
        push_bound(&mut members, "timestampMin", self.timestamp_min, false);
        push_bound(&mut members, "timestampMax", self.timestamp_max, false);
        write_object(&members)
    }
}

/// Add a bound, if there is one.
fn push_bound(members: &mut Vec<Vec<u8>>, name: &str, bound: Option<u64>, hex: bool)
    ensures
        crate::json::parts_of(final(members)@) == crate::json::parts_of(old(members)@)
            + bound_member(name@, bound, hex),
{
    let ghost before = crate::json::parts_of(members@);
    if let Some(n) = bound {
        let value: Vec<u8> = if hex {
            string(&quantity(n))
        } else {
            let mut digits = String::new();
            push_numeral(&mut digits, n, 10);
            assert(digits@ =~= crate::text::decimal(n as nat));
            digits.as_str().as_bytes_vec()
        };
        members.push(write_member(name, value.as_slice()));
    }
    assert(crate::json::parts_of(members@) =~= before + bound_member(name@, bound, hex));
}

/// Write slot expectations in JSON.
fn slots_to_json(slots: &SortedMap<String>) -> (v: Vec<u8>)
    ensures
        v@ == crate::json::object(slot_members(slots.entries())),
{
    let ghost all = slot_members(slots.entries());
    let mut members: Vec<Vec<u8>> = Vec::new();
    let n: usize = slots.len();
    let mut i: usize = 0;
    while i < n
        invariant
            i <= n,
            n == slots.entries().len(),
            all == slot_members(slots.entries()),
            crate::json::parts_of(members@) == all.take(i as int),
        decreases n - i,
    {
        let (key, value) = slots.entry(i);
        let ghost before = members@;
        let part = write_member(key, string(value).as_slice());
        assert(part@ == all[i as int]);
        members.push(part);
        i += 1;
        assert(crate::json::parts_of(members@) =~= crate::json::parts_of(before).push(part@));
        assert(all.take(i as int) =~= all.take(i - 1).push(all[i - 1]));
    }
    assert(all.take(n as int) =~= all);
    write_object(&members)
}

/// Write account expectations in JSON.
fn accounts_to_json(accounts: &SortedMap<KnownAccount>) -> (v: Vec<u8>)
    ensures
        v@ == crate::json::object(account_members(accounts.entries())),
{
    let ghost all = account_members(accounts.entries());
    let mut members: Vec<Vec<u8>> = Vec::new();
    let n: usize = accounts.len();
    let mut i: usize = 0;
    while i < n
        invariant
            i <= n,
            n == accounts.entries().len(),
            all == account_members(accounts.entries()),
            crate::json::parts_of(members@) == all.take(i as int),
        decreases n - i,
    {
        let (address, account) = accounts.entry(i);
        let value: Vec<u8> = match account {
            KnownAccount::StorageRoot(root) => string(root),
            KnownAccount::Slots(slots) => slots_to_json(slots),
        };
        let ghost before = members@;
        let part = write_member(address, value.as_slice());
        assert(part@ == all[i as int]);
        members.push(part);
        i += 1;
        assert(crate::json::parts_of(members@) =~= crate::json::parts_of(before).push(part@));
        assert(all.take(i as int) =~= all.take(i - 1).push(all[i - 1]));
    }
    assert(all.take(n as int) =~= all);
    write_object(&members)
}

/// The same slots are written the same way.
proof fn same_slots_same_members(a: SortedMap<String>, b: SortedMap<String>)
    requires
        crate::sorted_map::in_key_order(a.entries()),
        crate::sorted_map::in_key_order(b.entries()),
        slot_values(a) == slot_values(b),
    ensures
        slot_members(a.entries()) == slot_members(b.entries()),
{
    let (x, y) = (a.entries(), b.entries());
    assert(a@.dom() =~= slot_values(a).dom());
    assert(b@.dom() =~= slot_values(b).dom());
    crate::sorted_map::same_keys_same_places(x, y);
    assert forall|i: int| 0 <= i < x.len() implies x[i].1@ == y[i].1@ by {
        crate::sorted_map::map_of_entry(x, i);
        crate::sorted_map::map_of_entry(y, i);
        assert(x[i].0 == y[i].0);
        assert(slot_values(a)[x[i].0] == x[i].1@);
        assert(slot_values(b)[y[i].0] == y[i].1@);
    }
    assert(slot_members(x) =~= slot_members(y));
}

/// Constraints that say the same are written the same way, in whatever order they
/// were put together.
pub proof fn same_constraints_same_json(a: ConditionalOptions, b: ConditionalOptions)
    requires
        a.is_sorted(),
        b.is_sorted(),
        a.accounts() == b.accounts(),
        a.same_ranges(b),
    ensures
        a.json() == b.json(),
{
    let (x, y) = (a.known_accounts.entries(), b.known_accounts.entries());
    assert(a.known_accounts@.dom() =~= a.accounts().dom());
    assert(b.known_accounts@.dom() =~= b.accounts().dom());
    crate::sorted_map::same_keys_same_places(x, y);
    assert forall|i: int| 0 <= i < x.len() implies account_json(x[i].1) == account_json(y[i].1) by {
        crate::sorted_map::map_of_entry(x, i);
        crate::sorted_map::map_of_entry(y, i);
        assert(x[i].0 == y[i].0);
        assert(a.accounts()[x[i].0] == x[i].1@);
        assert(b.accounts()[y[i].0] == y[i].1@);
        assert(x[i].1.is_sorted() && y[i].1.is_sorted());
        match (x[i].1, y[i].1) {
            (KnownAccount::Slots(p), KnownAccount::Slots(q)) => {
                same_slots_same_members(p, q);
            },
            _ => {},
        }
    }
    assert(account_members(x) =~= account_members(y));
}

/// Slots as names with their values.
spec fn slot_list(entries: Seq<(Seq<char>, String)>) -> Seq<(Seq<char>, Seq<u8>)> {
    entries.map_values(|e: (Seq<char>, String)| (e.0, crate::json::json_string(e.1@)))
}

/// Accounts as names with their values.
spec fn account_list(entries: Seq<(Seq<char>, KnownAccount)>) -> Seq<(Seq<char>, Seq<u8>)> {
    entries.map_values(|e: (Seq<char>, KnownAccount)| (e.0, account_json(e.1)))
}

/// Slots are told apart from slots.
proof fn slots_told_apart(x: Seq<(Seq<char>, String)>, y: Seq<(Seq<char>, String)>)
    ensures
        crate::json::lists_told_apart(slot_list(x), slot_list(y)),
        slot_members(x) == crate::json::members_of(slot_list(x)),
{
    let (p, q) = (slot_list(x), slot_list(y));
    assert forall|i: int, j: int| 0 <= i < p.len() && 0 <= j < q.len() implies
        crate::json::told_apart((#[trigger] p[i]).1, (#[trigger] q[j]).1) by {
        crate::json::string_values(x[i].1@, y[j].1@);
    }
    assert(slot_members(x) =~= crate::json::members_of(p));
}

/// Account expectations are told apart.
proof fn accounts_told_apart(a: KnownAccount, b: KnownAccount)
    ensures
        crate::json::told_apart(account_json(a), account_json(b)),
{
    match (a, b) {
        (KnownAccount::StorageRoot(x), KnownAccount::StorageRoot(y)) => {
            crate::json::string_values(x@, y@);
        },
        (KnownAccount::Slots(x), KnownAccount::Slots(y)) => {
            slots_told_apart(x.entries(), y.entries());
            slots_told_apart(y.entries(), x.entries());
            crate::json::object_values(slot_list(x.entries()), slot_list(y.entries()));
        },
        _ => {
            crate::json::unlike_values(account_json(a), account_json(b));
        },
    }
}

/// The JSON of an account expectation determines it.
proof fn account_json_determines(a: KnownAccount, b: KnownAccount)
    requires
        a.is_sorted(),
        b.is_sorted(),
        account_json(a) == account_json(b),
    ensures
        a@ == b@,
{
    let none = Seq::<u8>::empty();
    match (a, b) {
        (KnownAccount::StorageRoot(x), KnownAccount::StorageRoot(y)) => {
            crate::json::strings_tell_apart(x@, y@, none, none);
        },
        (KnownAccount::Slots(x), KnownAccount::Slots(y)) => {
            let (e, f) = (x.entries(), y.entries());
            slots_told_apart(e, f);
            slots_told_apart(f, e);
            crate::json::objects_tell_apart(slot_list(e), slot_list(f), none, none);
            assert(e.len() == slot_list(e).len() && f.len() == slot_list(f).len());
            assert forall|i: int| 0 <= i < e.len() implies (#[trigger] e[i]).0 == f[i].0 && e[i].1@
                == f[i].1@ by {
                assert(slot_list(e)[i] == slot_list(f)[i]);
                crate::json::strings_tell_apart(e[i].1@, f[i].1@, none, none);
            }
            same_slots(x, y);
        },
        (KnownAccount::StorageRoot(x), KnownAccount::Slots(y)) => {
            assert(account_json(a)[0] == 34);
            assert(account_json(b)[0] == 123);
        },
        (KnownAccount::Slots(x), KnownAccount::StorageRoot(y)) => {
            assert(account_json(a)[0] == 123);
            assert(account_json(b)[0] == 34);
        },
    }
}

/// Slots with the same entries are the same slots.
proof fn same_slots(x: SortedMap<String>, y: SortedMap<String>)
    requires
        crate::sorted_map::in_key_order(x.entries()),
        crate::sorted_map::in_key_order(y.entries()),
        x.entries().len() == y.entries().len(),
        forall|i: int|
            0 <= i < x.entries().len() ==> (#[trigger] x.entries()[i]).0 == y.entries()[i].0
                && x.entries()[i].1@ == y.entries()[i].1@,
    ensures
        slot_values(x) == slot_values(y),
{
    let (e, f) = (x.entries(), y.entries());
    assert forall|k: Seq<char>| #[trigger]
        slot_values(x).contains_key(k) <==> slot_values(y).contains_key(k) by {
        if crate::sorted_map::has_key(e, k) {
            let i = choose|i: int| 0 <= i < e.len() && (#[trigger] e[i]).0 == k;
            assert(f[i].0 == k);
        }
        if crate::sorted_map::has_key(f, k) {
            let i = choose|i: int| 0 <= i < f.len() && (#[trigger] f[i]).0 == k;
            assert(e[i].0 == k);
        }
    }
    assert forall|k: Seq<char>| slot_values(x).contains_key(k) implies #[trigger] slot_values(x)[k]
        == slot_values(y)[k] by {
        let i = choose|i: int| 0 <= i < e.len() && (#[trigger] e[i]).0 == k;
        assert(f[i].0 == k);
        crate::sorted_map::map_of_entry(e, i);
        crate::sorted_map::map_of_entry(f, i);
    }
    assert(slot_values(x) =~= slot_values(y));
}

/// The JSON of the accounts determines what is expected of each.
proof fn account_members_determine(a: ConditionalOptions, b: ConditionalOptions)
    requires
        a.is_sorted(),
        b.is_sorted(),
        account_list(a.known_accounts.entries()) == account_list(b.known_accounts.entries()),
    ensures
        a.accounts() == b.accounts(),
{
    let (e, f) = (a.known_accounts.entries(), b.known_accounts.entries());
    assert(e.len() == account_list(e).len() && f.len() == account_list(f).len());
    assert forall|i: int| 0 <= i < e.len() implies (#[trigger] e[i]).0 == f[i].0 && e[i].1@
        == f[i].1@ by {
        assert(account_list(e)[i] == account_list(f)[i]);
        account_json_determines(e[i].1, f[i].1);
    }
    assert forall|k: Seq<char>| #[trigger]
        a.accounts().contains_key(k) <==> b.accounts().contains_key(k) by {
        if crate::sorted_map::has_key(e, k) {
            let i = choose|i: int| 0 <= i < e.len() && (#[trigger] e[i]).0 == k;
            assert(f[i].0 == k);
        }
        if crate::sorted_map::has_key(f, k) {
            let i = choose|i: int| 0 <= i < f.len() && (#[trigger] f[i]).0 == k;
            assert(e[i].0 == k);
        }
    }
    assert forall|k: Seq<char>| a.accounts().contains_key(k) implies #[trigger] a.accounts()[k]
        == b.accounts()[k] by {
        let i = choose|i: int| 0 <= i < e.len() && (#[trigger] e[i]).0 == k;
        assert(f[i].0 == k);
        crate::sorted_map::map_of_entry(e, i);
        crate::sorted_map::map_of_entry(f, i);
    }
    assert(a.accounts() =~= b.accounts());
}

/// The accounts as a list of at most one member.
spec fn accounts_item(o: ConditionalOptions) -> Seq<(Seq<char>, Seq<u8>)> {
    if o.known_accounts.entries().len() == 0 {
        seq![]
    } else {
        seq![
            (
                "knownAccounts"@,
                crate::json::object(
                    crate::json::members_of(account_list(o.known_accounts.entries())),
                ),
            ),
        ]
    }
}

/// A bound as a list of at most one member.
spec fn bound_item(name: Seq<char>, bound: Option<u64>, hex: bool) -> Seq<
    (Seq<char>, Seq<u8>),
> {
    match bound {
        Some(n) => seq![
            (
                name,
                if hex {
                    hex_bound(n)
                } else {
                    decimal_bound(n)
                },
            ),
        ],
        None => seq![],
    }
}

/// A bound as a string that holds its hexadecimal quantity.
pub open spec fn hex_bound(n: u64) -> Seq<u8> {
    crate::json::json_string(seq!['0', 'x'] + crate::text::numeral(n as nat, 16))
}

/// A bound as a decimal number.
pub open spec fn decimal_bound(n: u64) -> Seq<u8> {
    vstd::utf8::encode_utf8(crate::text::numeral(n as nat, 10))
}

/// All members as one list.
spec fn items(o: ConditionalOptions) -> Seq<(Seq<char>, Seq<u8>)> {
    accounts_item(o) + bound_item("blockNumberMin"@, o.block_number_min, true) + bound_item(
        "blockNumberMax"@,
        o.block_number_max,
        true,
    ) + bound_item("timestampMin"@, o.timestamp_min, false) + bound_item(
        "timestampMax"@,
        o.timestamp_max,
        false,
    )
}

/// The JSON of the constraints is the object with these members.
proof fn json_has_the_items(o: ConditionalOptions)
    ensures
        o.json() == crate::json::object(crate::json::members_of(items(o))),
{
    let entries = o.known_accounts.entries();
    assert(account_members(entries) =~= crate::json::members_of(account_list(entries)));
    assert(o.accounts_member() =~= crate::json::members_of(accounts_item(o)));
    assert(bound_member("blockNumberMin"@, o.block_number_min, true) =~= crate::json::members_of(
        bound_item("blockNumberMin"@, o.block_number_min, true),
    ));
    assert(bound_member("blockNumberMax"@, o.block_number_max, true) =~= crate::json::members_of(
        bound_item("blockNumberMax"@, o.block_number_max, true),
    ));
    assert(bound_member("timestampMin"@, o.timestamp_min, false) =~= crate::json::members_of(
        bound_item("timestampMin"@, o.timestamp_min, false),
    ));
    assert(bound_member("timestampMax"@, o.timestamp_max, false) =~= crate::json::members_of(
        bound_item("timestampMax"@, o.timestamp_max, false),
    ));
    assert(o.accounts_member() + bound_member("blockNumberMin"@, o.block_number_min, true)
        + bound_member("blockNumberMax"@, o.block_number_max, true) + bound_member(
        "timestampMin"@,
        o.timestamp_min,
        false,
    ) + bound_member("timestampMax"@, o.timestamp_max, false) =~= crate::json::members_of(
        items(o),
    ));
}

/// The names of the members are different.
proof fn names_differ()
    ensures
        "knownAccounts"@ != "blockNumberMin"@,
        "knownAccounts"@ != "blockNumberMax"@,
        "knownAccounts"@ != "timestampMin"@,
        "knownAccounts"@ != "timestampMax"@,
        "blockNumberMin"@ != "blockNumberMax"@,
        "blockNumberMin"@ != "timestampMin"@,
        "blockNumberMin"@ != "timestampMax"@,
        "blockNumberMax"@ != "timestampMin"@,
        "blockNumberMax"@ != "timestampMax"@,
        "timestampMin"@ != "timestampMax"@,
{
    reveal_strlit("knownAccounts");
    reveal_strlit("blockNumberMin");
    reveal_strlit("blockNumberMax");
    reveal_strlit("timestampMin");
    reveal_strlit("timestampMax");
    assert("blockNumberMin"@[12] != "blockNumberMax"@[12]);
    assert("timestampMin"@[10] != "timestampMax"@[10]);
}

/// At most one member of the given name.
spec fn is_item(item: Seq<(Seq<char>, Seq<u8>)>, name: Seq<char>) -> bool {
    item.len() <= 1 && (item.len() == 1 ==> item[0].0 == name)
}

/// In a list of members with different names, each stands exactly once.
proof fn each_item_stands_once(
    a: Seq<(Seq<char>, Seq<u8>)>,
    b: Seq<(Seq<char>, Seq<u8>)>,
    c: Seq<(Seq<char>, Seq<u8>)>,
    d: Seq<(Seq<char>, Seq<u8>)>,
    e: Seq<(Seq<char>, Seq<u8>)>,
    i: int,
)
    requires
        is_item(a, "knownAccounts"@),
        is_item(b, "blockNumberMin"@),
        is_item(c, "blockNumberMax"@),
        is_item(d, "timestampMin"@),
        is_item(e, "timestampMax"@),
        0 <= i < (a + b + c + d + e).len(),
    ensures
        ({
            let m = (a + b + c + d + e)[i];
            &&& m.0 == "knownAccounts"@ ==> a == seq![m]
            &&& m.0 == "blockNumberMin"@ ==> b == seq![m]
            &&& m.0 == "blockNumberMax"@ ==> c == seq![m]
            &&& m.0 == "timestampMin"@ ==> d == seq![m]
            &&& m.0 == "timestampMax"@ ==> e == seq![m]
            &&& (a == seq![m] || b == seq![m] || c == seq![m] || d == seq![m] || e == seq![m])
        }),
{
    names_differ();
    let m = (a + b + c + d + e)[i];
    let (p, q, r, s) = (a.len(), a.len() + b.len(), a.len() + b.len() + c.len(), a.len() + b.len()
        + c.len() + d.len());
    if i < p {
        assert(a =~= seq![m]);
    } else if i < q {
        assert(b =~= seq![m]);
    } else if i < r {
        assert(c =~= seq![m]);
    } else if i < s {
        assert(d =~= seq![m]);
    } else {
        assert(e =~= seq![m]);
    }
}

/// Each piece is in the whole.
proof fn each_item_is_there(
    a: Seq<(Seq<char>, Seq<u8>)>,
    b: Seq<(Seq<char>, Seq<u8>)>,
    c: Seq<(Seq<char>, Seq<u8>)>,
    d: Seq<(Seq<char>, Seq<u8>)>,
    e: Seq<(Seq<char>, Seq<u8>)>,
)
    ensures
        a.len() > 0 ==> (a + b + c + d + e).contains(a[0]),
        b.len() > 0 ==> (a + b + c + d + e).contains(b[0]),
        c.len() > 0 ==> (a + b + c + d + e).contains(c[0]),
        d.len() > 0 ==> (a + b + c + d + e).contains(d[0]),
        e.len() > 0 ==> (a + b + c + d + e).contains(e[0]),
{
    let all = a + b + c + d + e;
    if a.len() > 0 {
        assert(all[0] == a[0]);
    }
    if b.len() > 0 {
        assert(all[a.len() as int] == b[0]);
    }
    if c.len() > 0 {
        assert(all[(a.len() + b.len()) as int] == c[0]);
    }
    if d.len() > 0 {
        assert(all[(a.len() + b.len() + c.len()) as int] == d[0]);
    }
    if e.len() > 0 {
        assert(all[(a.len() + b.len() + c.len() + d.len()) as int] == e[0]);
    }
}

/// A decimal bound is a number, and tells its bound.
proof fn decimal_bounds_tell(n: u64, m: u64)
    ensures
        crate::json::is_number(decimal_bound(n)),
        decimal_bound(n) == decimal_bound(m) ==> n == m,
{
    let s = crate::text::numeral(n as nat, 10);
    crate::text::numeral_reads_back(n as nat, 10);
    assert forall|i: int| 0 <= i < s.len() implies '\0' <= #[trigger] s[i] <= '\u{7f}' by {
        assert(crate::text::is_digit(s[i], 10));
    }
    vstd::utf8::is_ascii_chars_encode_utf8(s);
    let v = decimal_bound(n);
    assert forall|i: int| 0 <= i < v.len() implies 48 <= #[trigger] v[i] <= 57 by {
        assert(crate::text::is_digit(s[i], 10));
        assert(s[i] as u8 == v[i]);
    }
    if decimal_bound(n) == decimal_bound(m) {
        vstd::utf8::encode_utf8_decode_utf8(s);
        vstd::utf8::encode_utf8_decode_utf8(crate::text::numeral(m as nat, 10));
        crate::text::numerals_tell_numbers_apart(n as nat, m as nat, 10);
    }
}

/// A hexadecimal bound tells its bound.
proof fn hex_bounds_tell(n: u64, m: u64)
    ensures
        hex_bound(n) == hex_bound(m) ==> n == m,
{
    if hex_bound(n) == hex_bound(m) {
        let none = Seq::<u8>::empty();
        let x = seq!['0', 'x'] + crate::text::numeral(n as nat, 16);
        let y = seq!['0', 'x'] + crate::text::numeral(m as nat, 16);
        crate::json::strings_tell_apart(x, y, none, none);
        assert(x.skip(2) =~= crate::text::numeral(n as nat, 16));
        assert(y.skip(2) =~= crate::text::numeral(m as nat, 16));
        crate::text::numerals_tell_numbers_apart(n as nat, m as nat, 16);
    }
}

/// The value of a member is the accounts, a string, or a number.
spec fn is_item_value(o: ConditionalOptions, v: Seq<u8>) -> bool {
    ||| v == crate::json::object(crate::json::members_of(account_list(o.known_accounts.entries())))
    ||| exists|n: u64| v == #[trigger] hex_bound(n)
    ||| exists|n: u64| v == #[trigger] decimal_bound(n)
}

/// Every value of a list of members is one of those.
proof fn item_values(o: ConditionalOptions, i: int)
    requires
        0 <= i < items(o).len(),
    ensures
        is_item_value(o, items(o)[i].1),
{
    let a = accounts_item(o);
    let b = bound_item("blockNumberMin"@, o.block_number_min, true);
    let c = bound_item("blockNumberMax"@, o.block_number_max, true);
    let d = bound_item("timestampMin"@, o.timestamp_min, false);
    let e = bound_item("timestampMax"@, o.timestamp_max, false);
    each_item_stands_once(a, b, c, d, e, i);
    let m = items(o)[i];
    if a == seq![m] {
        assert(a[0] == m);
    } else if b == seq![m] {
        assert(b[0] == m);
    } else if c == seq![m] {
        assert(c[0] == m);
    } else if d == seq![m] {
        assert(d[0] == m);
    } else {
        assert(e[0] == m);
    }
}

/// Two values of members are told apart.
proof fn item_values_told_apart(
    a: ConditionalOptions,
    b: ConditionalOptions,
    v: Seq<u8>,
    w: Seq<u8>,
)
    requires
        is_item_value(a, v),
        is_item_value(b, w),
    ensures
        crate::json::told_apart(v, w),
{
    let (p, q) = (account_list(a.known_accounts.entries()), account_list(b.known_accounts.entries()));
    let (x, y) = (
        crate::json::object(crate::json::members_of(p)),
        crate::json::object(crate::json::members_of(q)),
    );
    assert forall|i: int, j: int| 0 <= i < p.len() && 0 <= j < q.len() implies
        crate::json::told_apart((#[trigger] p[i]).1, (#[trigger] q[j]).1) by {
        accounts_told_apart(
            a.known_accounts.entries()[i].1,
            b.known_accounts.entries()[j].1,
        );
    }
    crate::json::object_values(p, q);
    if v != x {
        if exists|n: u64| v == #[trigger] hex_bound(n) {
            let n = choose|n: u64| v == #[trigger] hex_bound(n);
            if exists|m: u64| w == #[trigger] hex_bound(m) {
                let m = choose|m: u64| w == #[trigger] hex_bound(m);
                crate::json::string_values(
                    seq!['0', 'x'] + crate::text::numeral(n as nat, 16),
                    seq!['0', 'x'] + crate::text::numeral(m as nat, 16),
                );
            } else {
                opening_bytes(w, y);
                crate::json::unlike_values(v, w);
            }
        } else {
            let n = choose|n: u64| v == #[trigger] decimal_bound(n);
            decimal_bounds_tell(n, n);
            assert(48 <= v[0] <= 57);
            if exists|m: u64| w == #[trigger] decimal_bound(m) {
                let m = choose|m: u64| w == #[trigger] decimal_bound(m);
                decimal_bounds_tell(m, m);
                crate::json::number_values(v, w);
            } else {
                assert(w.len() > 0 && (w[0] == 34 || w[0] == 123));
                crate::json::unlike_values(v, w);
            }
        }
    } else if w != y {
        opening_bytes(w, y);
        crate::json::unlike_values(v, w);
    }
}

/// A value that is no string begins with a brace or a digit; one that is not the
/// accounts begins with a quote or a digit.
proof fn opening_bytes(w: Seq<u8>, accounts: Seq<u8>)
    requires
        accounts.len() > 0,
        accounts[0] == 123,
        w == accounts || (exists|n: u64| w == #[trigger] hex_bound(n)) || (exists|n: u64|
            w == #[trigger] decimal_bound(n)),
    ensures
        w.len() > 0,
        !(exists|n: u64| w == #[trigger] hex_bound(n)) ==> w[0] != 34,
        w != accounts ==> w[0] != 123,
{
    if exists|n: u64| w == #[trigger] decimal_bound(n) {
        let n = choose|n: u64| w == #[trigger] decimal_bound(n);
        decimal_bounds_tell(n, n);
        assert(48 <= w[0] <= 57);
    }
}

/// The JSON determines the constraints: two option sets with the same JSON expect
/// the same of every account and have the same four bounds. Nothing that was
/// required is left out.
pub proof fn the_json_determines_the_constraints(a: ConditionalOptions, b: ConditionalOptions)
    requires
        a.is_sorted(),
        b.is_sorted(),
        a.json() == b.json(),
    ensures
        a.accounts() == b.accounts(),
        a.block_number_min == b.block_number_min,
        a.block_number_max == b.block_number_max,
        a.timestamp_min == b.timestamp_min,
        a.timestamp_max == b.timestamp_max,
{
    let none = Seq::<u8>::empty();
    let (p, q) = (items(a), items(b));
    json_has_the_items(a);
    json_has_the_items(b);
    assert forall|i: int, j: int| 0 <= i < p.len() && 0 <= j < q.len() implies
        crate::json::told_apart((#[trigger] p[i]).1, (#[trigger] q[j]).1) by {
        item_values(a, i);
        item_values(b, j);
        item_values_told_apart(a, b, p[i].1, q[j].1);
    }
    crate::json::objects_tell_apart(p, q, none, none);
    same_items(a, b);
    accounts_items_determine(a, b);
    bound_items_determine("blockNumberMin"@, a.block_number_min, b.block_number_min, true);
    bound_items_determine("blockNumberMax"@, a.block_number_max, b.block_number_max, true);
    bound_items_determine("timestampMin"@, a.timestamp_min, b.timestamp_min, false);
    bound_items_determine("timestampMax"@, a.timestamp_max, b.timestamp_max, false);
}

/// Equal lists of members are equal piece by piece.
proof fn same_items(a: ConditionalOptions, b: ConditionalOptions)
    requires
        items(a) == items(b),
    ensures
        accounts_item(a) == accounts_item(b),
        bound_item("blockNumberMin"@, a.block_number_min, true) == bound_item(
            "blockNumberMin"@,
            b.block_number_min,
            true,
        ),
        bound_item("blockNumberMax"@, a.block_number_max, true) == bound_item(
            "blockNumberMax"@,
            b.block_number_max,
            true,
        ),
        bound_item("timestampMin"@, a.timestamp_min, false) == bound_item(
            "timestampMin"@,
            b.timestamp_min,
            false,
        ),
        bound_item("timestampMax"@, a.timestamp_max, false) == bound_item(
            "timestampMax"@,
            b.timestamp_max,
            false,
        ),
{
    let a0 = accounts_item(a);
    let a1 = bound_item("blockNumberMin"@, a.block_number_min, true);
    let a2 = bound_item("blockNumberMax"@, a.block_number_max, true);
    let a3 = bound_item("timestampMin"@, a.timestamp_min, false);
    let a4 = bound_item("timestampMax"@, a.timestamp_max, false);
    let b0 = accounts_item(b);
    let b1 = bound_item("blockNumberMin"@, b.block_number_min, true);
    let b2 = bound_item("blockNumberMax"@, b.block_number_max, true);
    let b3 = bound_item("timestampMin"@, b.timestamp_min, false);
    let b4 = bound_item("timestampMax"@, b.timestamp_max, false);
    pieces_within(a0, a1, a2, a3, a4, b0, b1, b2, b3, b4);
    pieces_within(b0, b1, b2, b3, b4, a0, a1, a2, a3, a4);
    assert(a0 =~= b0 && a1 =~= b1 && a2 =~= b2 && a3 =~= b3 && a4 =~= b4);
}

/// Each piece of one list is that piece of an equal one.
proof fn pieces_within(
    a0: Seq<(Seq<char>, Seq<u8>)>,
    a1: Seq<(Seq<char>, Seq<u8>)>,
    a2: Seq<(Seq<char>, Seq<u8>)>,
    a3: Seq<(Seq<char>, Seq<u8>)>,
    a4: Seq<(Seq<char>, Seq<u8>)>,
    b0: Seq<(Seq<char>, Seq<u8>)>,
    b1: Seq<(Seq<char>, Seq<u8>)>,
    b2: Seq<(Seq<char>, Seq<u8>)>,
    b3: Seq<(Seq<char>, Seq<u8>)>,
    b4: Seq<(Seq<char>, Seq<u8>)>,
)
    requires
        is_item(a0, "knownAccounts"@),
        is_item(b0, "knownAccounts"@),
        is_item(a1, "blockNumberMin"@),
        is_item(b1, "blockNumberMin"@),
        is_item(a2, "blockNumberMax"@),
        is_item(b2, "blockNumberMax"@),
        is_item(a3, "timestampMin"@),
        is_item(b3, "timestampMin"@),
        is_item(a4, "timestampMax"@),
        is_item(b4, "timestampMax"@),
        a0 + a1 + a2 + a3 + a4 == b0 + b1 + b2 + b3 + b4,
    ensures
        a0.len() > 0 ==> a0 == b0,
        a1.len() > 0 ==> a1 == b1,
        a2.len() > 0 ==> a2 == b2,
        a3.len() > 0 ==> a3 == b3,
        a4.len() > 0 ==> a4 == b4,
{
    let all = b0 + b1 + b2 + b3 + b4;
    each_item_is_there(a0, a1, a2, a3, a4);
    assert(a0.len() > 0 ==> a0 == b0) by {
        if a0.len() > 0 {
            each_item_stands_once(b0, b1, b2, b3, b4, all.index_of(a0[0]));
            assert(a0 =~= seq![a0[0]]);
        }
    }
    assert(a1.len() > 0 ==> a1 == b1) by {
        if a1.len() > 0 {
            each_item_stands_once(b0, b1, b2, b3, b4, all.index_of(a1[0]));
            assert(a1 =~= seq![a1[0]]);
        }
    }
    assert(a2.len() > 0 ==> a2 == b2) by {
        if a2.len() > 0 {
            each_item_stands_once(b0, b1, b2, b3, b4, all.index_of(a2[0]));
            assert(a2 =~= seq![a2[0]]);
        }
    }
    assert(a3.len() > 0 ==> a3 == b3) by {
        if a3.len() > 0 {
            each_item_stands_once(b0, b1, b2, b3, b4, all.index_of(a3[0]));
            assert(a3 =~= seq![a3[0]]);
        }
    }
    assert(a4.len() > 0 ==> a4 == b4) by {
        if a4.len() > 0 {
            each_item_stands_once(b0, b1, b2, b3, b4, all.index_of(a4[0]));
            assert(a4 =~= seq![a4[0]]);
        }
    }
}

/// The member for the accounts determines them.
proof fn accounts_items_determine(a: ConditionalOptions, b: ConditionalOptions)
    requires
        a.is_sorted(),
        b.is_sorted(),
        accounts_item(a) == accounts_item(b),
    ensures
        a.accounts() == b.accounts(),
{
    let none = Seq::<u8>::empty();
    let (e, f) = (a.known_accounts.entries(), b.known_accounts.entries());
    let (p, q) = (account_list(e), account_list(f));
    if e.len() > 0 {
        assert(accounts_item(a)[0] == accounts_item(b)[0]);
        assert forall|i: int, j: int| 0 <= i < p.len() && 0 <= j < q.len() implies
            crate::json::told_apart((#[trigger] p[i]).1, (#[trigger] q[j]).1) by {
            accounts_told_apart(e[i].1, f[j].1);
        }
        crate::json::objects_tell_apart(p, q, none, none);
    } else {
        assert(accounts_item(a).len() == 0);
        assert(accounts_item(b).len() == 0);
        assert(p =~= q);
    }
    account_members_determine(a, b);
}

/// The member for a bound determines it.
proof fn bound_items_determine(name: Seq<char>, a: Option<u64>, b: Option<u64>, hex: bool)
    requires
        bound_item(name, a, hex) == bound_item(name, b, hex),
    ensures
        a == b,
{
    match (a, b) {
        (Some(n), Some(m)) => {
            assert(bound_item(name, a, hex)[0] == bound_item(name, b, hex)[0]);
            hex_bounds_tell(n, m);
            decimal_bounds_tell(n, m);
        },
        (None, None) => {},
        (Some(_), None) => {
            assert(bound_item(name, a, hex).len() == 1);
            assert(bound_item(name, b, hex).len() == 0);
        },
        (None, Some(_)) => {
            assert(bound_item(name, a, hex).len() == 0);
            assert(bound_item(name, b, hex).len() == 1);
        },
    }
}

/// The JSON is an object in which no name stands twice. It has a member for a bound
/// exactly where the bound is set, whatever the other constraints are: block numbers
/// as hexadecimal quantities, timestamps as decimal numbers. Accounts have a member
/// exactly where there are any.
pub proof fn every_constraint_has_its_member(o: ConditionalOptions)
    ensures
        exists|list: Seq<(Seq<char>, Seq<u8>)>|
            {
                &&& o.json() == crate::json::object(#[trigger] crate::json::members_of(list))
                &&& forall|i: int, j: int|
                    0 <= i < j < list.len() ==> (#[trigger] list[i]).0 != (#[trigger] list[j]).0
                &&& forall|n: u64|
                    list.contains(("blockNumberMin"@, #[trigger] hex_bound(n)))
                        <==> o.block_number_min == Some(n)
                &&& forall|n: u64|
                    list.contains(("blockNumberMax"@, #[trigger] hex_bound(n)))
                        <==> o.block_number_max == Some(n)
                &&& forall|n: u64|
                    list.contains(("timestampMin"@, #[trigger] decimal_bound(n)))
                        <==> o.timestamp_min == Some(n)
                &&& forall|n: u64|
                    list.contains(("timestampMax"@, #[trigger] decimal_bound(n)))
                        <==> o.timestamp_max == Some(n)
                &&& (exists|i: int|
                    0 <= i < list.len() && (#[trigger] list[i]).0 == "knownAccounts"@) <==> (
                o.known_accounts.entries().len() > 0)
            },
{
    let list = items(o);
    json_has_the_items(o);
    names_stand_once(o);
    assert forall|n: u64|
        list.contains(("blockNumberMin"@, #[trigger] hex_bound(n))) <==> o.block_number_min
            == Some(n) by {
        bounds_in_the_list(o, n);
    }
    assert forall|n: u64|
        list.contains(("blockNumberMax"@, #[trigger] hex_bound(n))) <==> o.block_number_max
            == Some(n) by {
        bounds_in_the_list(o, n);
    }
    assert forall|n: u64|
        list.contains(("timestampMin"@, #[trigger] decimal_bound(n))) <==> o.timestamp_min
            == Some(n) by {
        bounds_in_the_list(o, n);
    }
    assert forall|n: u64|
        list.contains(("timestampMax"@, #[trigger] decimal_bound(n))) <==> o.timestamp_max
            == Some(n) by {
        bounds_in_the_list(o, n);
    }
    assert(o.json() == crate::json::object(crate::json::members_of(list)));
}

/// A bound is in the list of members exactly where it is set.
proof fn bounds_in_the_list(o: ConditionalOptions, n: u64)
    ensures
        items(o).contains(("blockNumberMin"@, hex_bound(n))) <==> o.block_number_min == Some(n),
        items(o).contains(("blockNumberMax"@, hex_bound(n))) <==> o.block_number_max == Some(n),
        items(o).contains(("timestampMin"@, decimal_bound(n))) <==> o.timestamp_min == Some(n),
        items(o).contains(("timestampMax"@, decimal_bound(n))) <==> o.timestamp_max == Some(n),
{
    let list = items(o);
    let a = accounts_item(o);
    let b = bound_item("blockNumberMin"@, o.block_number_min, true);
    let c = bound_item("blockNumberMax"@, o.block_number_max, true);
    let d = bound_item("timestampMin"@, o.timestamp_min, false);
    let e = bound_item("timestampMax"@, o.timestamp_max, false);
    each_item_is_there(a, b, c, d, e);
    let m = ("blockNumberMin"@, hex_bound(n));
    if list.contains(m) {
        each_item_stands_once(a, b, c, d, e, list.index_of(m));
        assert(b[0] == m);
        hex_bounds_tell(n, o.block_number_min->0);
    }
    let m = ("blockNumberMax"@, hex_bound(n));
    if list.contains(m) {
        each_item_stands_once(a, b, c, d, e, list.index_of(m));
        assert(c[0] == m);
        hex_bounds_tell(n, o.block_number_max->0);
    }
    let m = ("timestampMin"@, decimal_bound(n));
    if list.contains(m) {
        each_item_stands_once(a, b, c, d, e, list.index_of(m));
        assert(d[0] == m);
        decimal_bounds_tell(n, o.timestamp_min->0);
    }
    let m = ("timestampMax"@, decimal_bound(n));
    if list.contains(m) {
        each_item_stands_once(a, b, c, d, e, list.index_of(m));
        assert(e[0] == m);
        decimal_bounds_tell(n, o.timestamp_max->0);
    }
}

/// No name stands twice in the list of members, and the accounts stand there exactly
/// where there are any.
proof fn names_stand_once(o: ConditionalOptions)
    ensures
        forall|i: int, j: int|
            0 <= i < j < items(o).len() ==> (#[trigger] items(o)[i]).0 != (
            #[trigger] items(o)[j]).0,
        (exists|i: int| 0 <= i < items(o).len() && (#[trigger] items(o)[i]).0 == "knownAccounts"@)
            <==> (o.known_accounts.entries().len() > 0),
{
    let list = items(o);
    let a = accounts_item(o);
    let b = bound_item("blockNumberMin"@, o.block_number_min, true);
    let c = bound_item("blockNumberMax"@, o.block_number_max, true);
    let d = bound_item("timestampMin"@, o.timestamp_min, false);
    let e = bound_item("timestampMax"@, o.timestamp_max, false);
    assert forall|i: int, j: int| 0 <= i < j < list.len() implies (#[trigger] list[i]).0 != (
    #[trigger] list[j]).0 by {
        different_names(a, b, c, d, e, i, j);
    }
    each_item_is_there(a, b, c, d, e);
    if exists|i: int| 0 <= i < list.len() && (#[trigger] list[i]).0 == "knownAccounts"@ {
        let i = choose|i: int| 0 <= i < list.len() && (#[trigger] list[i]).0 == "knownAccounts"@;
        each_item_stands_once(a, b, c, d, e, i);
        assert(a.len() == 1);
    }
    if o.known_accounts.entries().len() > 0 {
        let i = list.index_of(a[0]);
        assert(list[i].0 == "knownAccounts"@);
    }
}

/// Two places of a list of pieces with different names have different names.
proof fn different_names(
    a: Seq<(Seq<char>, Seq<u8>)>,
    b: Seq<(Seq<char>, Seq<u8>)>,
    c: Seq<(Seq<char>, Seq<u8>)>,
    d: Seq<(Seq<char>, Seq<u8>)>,
    e: Seq<(Seq<char>, Seq<u8>)>,
    i: int,
    j: int,
)
    requires
        is_item(a, "knownAccounts"@),
        is_item(b, "blockNumberMin"@),
        is_item(c, "blockNumberMax"@),
        is_item(d, "timestampMin"@),
        is_item(e, "timestampMax"@),
        0 <= i < j < (a + b + c + d + e).len(),
    ensures
        (a + b + c + d + e)[i].0 != (a + b + c + d + e)[j].0,
{
    names_differ();
    let (p, q, r, s) = (a.len(), a.len() + b.len(), a.len() + b.len() + c.len(), a.len() + b.len()
        + c.len() + d.len());
    let all = a + b + c + d + e;
    let x = all[i];
    let y = all[j];
    assert(x == if i < p { a[i] } else if i < q { b[i - p] } else if i < r { c[i - q] } else if i
        < s { d[i - r] } else { e[i - s] });
    assert(y == if j < p { a[j] } else if j < q { b[j - p] } else if j < r { c[j - q] } else if j
        < s { d[j - r] } else { e[j - s] });
}

} // verus!
