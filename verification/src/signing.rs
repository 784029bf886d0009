//! Signing of venue actions: the packed form that is hashed, the typed-data
//! digest, and the signature in its wire form.

use std::str::FromStr;
use ethers_core::types::transaction::eip712::EIP712Domain;
use ethers_core::types::{Address, H256, U256};
use ethers_signers::LocalWallet;
use vstd::prelude::*;
use vstd::string::*;
use vstd::utf8::encode_utf8;
use crate::exchange::OrderError;
use crate::wire::{ascii_string, bytes_as_chars, dec_digits, push_decimal};

verus! {

/// A signature in its wire form.
#[derive(Debug)]
pub struct Signature {
    /// `0x` and 64 lower-case hex digits.
    pub r: String,
    /// `0x` and 64 lower-case hex digits.
    pub s: String,
    /// 27 or 28.
    pub v: u8,
}

/// The phantom agent that the typed-data message speaks of.
#[derive(Debug)]
pub struct Agent {
    /// `"a"` on mainnet, `"b"` on testnet.
    pub source: String,
    /// The action hash, 32 bytes.
    pub connection_id: Vec<u8>,
}

/// Time in force of a limit order.
#[derive(Debug)]
pub struct LimitOrderWire {
    /// `"Alo"`, `"Ioc"` or `"Gtc"`.
    pub tif: String,
}

/// Type of an order.
#[derive(Debug)]
pub enum OrderTypeWire {
    Limit(LimitOrderWire),
}

/// One order of an order action.
#[derive(Debug)]
pub struct OrderRequest {
    pub asset: u32,
    pub is_buy: bool,
    pub limit_px: String,
    pub sz: String,
    pub reduce_only: bool,
    pub order_type: OrderTypeWire,
}

/// An order action.
#[derive(Debug)]
pub struct ActionWire {
    /// `"order"`.
    pub action_type: String,
    pub orders: Vec<OrderRequest>,
    /// `"na"`.
    pub grouping: String,
}

/// An order as plain values; texts as their UTF-8 bytes.
pub struct OrderView {
    pub asset: nat,
    pub is_buy: bool,
    pub limit_px: Seq<u8>,
    pub sz: Seq<u8>,
    pub reduce_only: bool,
    pub tif: Seq<u8>,
}

/// An order action as plain values.
pub struct ActionView {
    pub action_type: Seq<u8>,
    pub orders: Seq<OrderView>,
    pub grouping: Seq<u8>,
}

impl OrderRequest {
    pub open spec fn tif_spec(&self) -> Seq<char> {
        match self.order_type {
            OrderTypeWire::Limit(l) => l.tif@,
        }
    }

    pub open spec fn view(&self) -> OrderView {
        OrderView {
            asset: self.asset as nat,
            is_buy: self.is_buy,
            limit_px: encode_utf8(self.limit_px@),
            sz: encode_utf8(self.sz@),
            reduce_only: self.reduce_only,
            tif: encode_utf8(self.tif_spec()),
        }
    }

    /// The time in force of the order.
    pub fn tif(&self) -> (r: &str)
        ensures
            r@ == self.tif_spec(),
    {
        match &self.order_type {
            OrderTypeWire::Limit(l) => l.tif.as_str(),
        }
    }
}

/// The orders of a list as plain values.
pub open spec fn order_views(s: Seq<OrderRequest>) -> Seq<OrderView> {
    Seq::new(s.len(), |i: int| s[i]@)
}

impl ActionWire {
    pub open spec fn view(&self) -> ActionView {
        ActionView {
            action_type: encode_utf8(self.action_type@),
            orders: order_views(self.orders@),
            grouping: encode_utf8(self.grouping@),
        }
    }

    /// Every text and the order list are short enough to be packed: their
    /// lengths fit in 32 bits.
    pub open spec fn packable(&self) -> bool {
        &&& self@.action_type.len() <= u32::MAX
        &&& self@.grouping.len() <= u32::MAX
        &&& self@.orders.len() <= u32::MAX
        &&& forall|i: int|
            0 <= i < self@.orders.len() ==> {
                &&& (#[trigger] self@.orders[i]).limit_px.len() <= u32::MAX
                &&& self@.orders[i].sz.len() <= u32::MAX
                &&& self@.orders[i].tif.len() <= u32::MAX
            }
    }
}

/// The `width` low bytes of a number, most significant first.
pub open spec fn be_bytes(n: nat, width: nat) -> Seq<u8>
    decreases width,
{
    if width == 0 {
        Seq::empty()
    } else {
        be_bytes(n / 256, (width - 1) as nat).push((n % 256) as u8)
    }
}

/// An unsigned integer, packed in its shortest form.
pub open spec fn mp_uint(n: nat) -> Seq<u8> {
    if n < 128 {
        seq![n as u8]
    } else if n < 256 {
        seq![0xccu8, n as u8]
    } else if n < 65_536 {
        seq![0xcdu8] + be_bytes(n, 2)
    } else if n < 4_294_967_296 {
        seq![0xceu8] + be_bytes(n, 4)
    } else {
        seq![0xcfu8] + be_bytes(n, 8)
    }
}

pub open spec fn mp_bool(b: bool) -> Seq<u8> {
    if b {
        seq![0xc3u8]
    } else {
        seq![0xc2u8]
    }
}

/// The header of a packed text of `len` bytes.
pub open spec fn mp_str_header(len: nat) -> Seq<u8> {
    if len < 32 {
        seq![(0xa0 + len) as u8]
    } else if len < 256 {
        seq![0xd9u8, len as u8]
    } else if len < 65_536 {
        seq![0xdau8] + be_bytes(len, 2)
    } else {
        seq![0xdbu8] + be_bytes(len, 4)
    }
}

/// A packed text: header, then the bytes.
pub open spec fn mp_str(bytes: Seq<u8>) -> Seq<u8> {
    mp_str_header(bytes.len()) + bytes
}

/// The header of a packed array of `len` items.
pub open spec fn mp_array_header(len: nat) -> Seq<u8> {
    if len < 16 {
        seq![(0x90 + len) as u8]
    } else if len < 65_536 {
        seq![0xdcu8] + be_bytes(len, 2)
    } else {
        seq![0xddu8] + be_bytes(len, 4)
    }
}

/// The header of a packed map of `len` entries, for `len` below 16.
pub open spec fn mp_map_header(len: nat) -> Seq<u8> {
    seq![(0x80 + len) as u8]
}

/// A packed key.
pub open spec fn mp_key(name: &str) -> Seq<u8> {
    mp_str(encode_utf8(name@))
}

/// A packed order: a map with the keys `a, b, p, s, r, t`, in this order.
pub open spec fn pack_order_spec(o: OrderView) -> Seq<u8> {
    mp_map_header(6) + mp_key("a") + mp_uint(o.asset) + mp_key("b") + mp_bool(o.is_buy) + mp_key(
        "p",
    ) + mp_str(o.limit_px) + mp_key("s") + mp_str(o.sz) + mp_key("r") + mp_bool(o.reduce_only)
        + mp_key("t") + mp_map_header(1) + mp_key("limit") + mp_map_header(1) + mp_key("tif")
        + mp_str(o.tif)
}

/// Packed orders, one after the other.
pub open spec fn pack_orders_spec(orders: Seq<OrderView>) -> Seq<u8>
    decreases orders.len(),
{
    if orders.len() == 0 {
        Seq::empty()
    } else {
        pack_orders_spec(orders.drop_last()) + pack_order_spec(orders.last())
    }
}

/// A packed order action: a map with the keys `type, orders, grouping`, in
/// this order.
pub open spec fn pack_action_spec(a: ActionView) -> Seq<u8> {
    mp_map_header(3) + mp_key("type") + mp_str(a.action_type) + mp_key("orders") + mp_array_header(
        a.orders.len(),
    ) + pack_orders_spec(a.orders) + mp_key("grouping") + mp_str(a.grouping)
}

/// A packed cancel action of one order: a map with the keys `type,
/// cancels`, the one cancel a map with the keys `a, o`.
pub open spec fn pack_cancel_spec(asset: nat, oid: nat) -> Seq<u8> {
    mp_map_header(2) + mp_key("type") + mp_key("cancel") + mp_key("cancels") + mp_array_header(1)
        + mp_map_header(2) + mp_key("a") + mp_uint(asset) + mp_key("o") + mp_uint(oid)
}

/// Appends the `width` low bytes of a number, most significant first.
pub fn push_be(out: &mut Vec<u8>, n: u64, width: usize)
    requires
        width <= 8,
    ensures
        final(out)@ == old(out)@ + be_bytes(n as nat, width as nat),
    decreases width,
{
    if width == 0 {
        assert(out@ =~= old(out)@ + be_bytes(n as nat, 0));
    } else {
        push_be(out, n / 256, width - 1);
        out.push((n % 256) as u8);
        assert(out@ =~= old(out)@ + be_bytes(n as nat, width as nat));
    }
}

/// Appends a packed unsigned integer.
pub fn push_uint(out: &mut Vec<u8>, n: u64)
    ensures
        final(out)@ == old(out)@ + mp_uint(n as nat),
{
    if n < 128 {
        out.push(n as u8);
        assert(out@ =~= old(out)@ + mp_uint(n as nat));
    } else if n < 256 {
        out.push(0xcc);
        out.push(n as u8);
        assert(out@ =~= old(out)@ + mp_uint(n as nat));
    } else if n < 65_536 {
        out.push(0xcd);
        push_be(out, n, 2);
        assert(out@ =~= old(out)@ + mp_uint(n as nat));
    } else if n < 4_294_967_296 {
        out.push(0xce);
        push_be(out, n, 4);
        assert(out@ =~= old(out)@ + mp_uint(n as nat));
    } else {
        out.push(0xcf);
        push_be(out, n, 8);
        assert(out@ =~= old(out)@ + mp_uint(n as nat));
    }
}

/// Appends a packed boolean.
pub fn push_bool(out: &mut Vec<u8>, b: bool)
    ensures
        final(out)@ == old(out)@ + mp_bool(b),
{
    if b {
        out.push(0xc3);
    } else {
        out.push(0xc2);
    }
    assert(out@ =~= old(out)@ + mp_bool(b));
}

/// Appends the bytes of a slice.
pub fn push_bytes(out: &mut Vec<u8>, bytes: &[u8])
    ensures
        final(out)@ == old(out)@ + bytes@,
{
    let mut i: usize = 0;
    while i < bytes.len()
        invariant
            i <= bytes@.len(),
            out@ == old(out)@ + bytes@.subrange(0, i as int),
        decreases bytes@.len() - i,
    {
        out.push(bytes[i]);
        assert(out@ =~= old(out)@ + bytes@.subrange(0, i as int + 1));
        i += 1;
    }
    assert(bytes@.subrange(0, bytes@.len() as int) =~= bytes@);
}

/// Appends a packed text.
pub fn push_str(out: &mut Vec<u8>, s: &str)
    requires
        s.spec_bytes().len() <= u32::MAX,
    ensures
        final(out)@ == old(out)@ + mp_str(s.spec_bytes()),
{
    let bytes = s.as_bytes();
    let len = bytes.len();
    if len < 32 {
        out.push(0xa0 + len as u8);
    } else if len < 256 {
        out.push(0xd9);
        out.push(len as u8);
    } else if len < 65_536 {
        out.push(0xda);
        push_be(out, len as u64, 2);
    } else {
        out.push(0xdb);
        push_be(out, len as u64, 4);
    }
    assert(out@ =~= old(out)@ + mp_str_header(len as nat));
    push_bytes(out, bytes);
    assert(out@ =~= old(out)@ + mp_str(s.spec_bytes()));
}

/// Appends the header of a packed array.
pub fn push_array_header(out: &mut Vec<u8>, len: usize)
    requires
        len <= u32::MAX,
    ensures
        final(out)@ == old(out)@ + mp_array_header(len as nat),
{
    if len < 16 {
        out.push(0x90 + len as u8);
    } else if len < 65_536 {
        out.push(0xdc);
        push_be(out, len as u64, 2);
    } else {
        out.push(0xdd);
        push_be(out, len as u64, 4);
    }
    assert(out@ =~= old(out)@ + mp_array_header(len as nat));
}

/// Appends the header of a packed map of fewer than 16 entries.
pub fn push_map_header(out: &mut Vec<u8>, len: u8)
    requires
        len < 16,
    ensures
        final(out)@ == old(out)@ + mp_map_header(len as nat),
{
    out.push(0x80 + len);
    assert(out@ =~= old(out)@ + mp_map_header(len as nat));
}

/// Appends a packed key.
pub fn push_key(out: &mut Vec<u8>, name: &str)
    requires
        name.spec_bytes().len() <= u32::MAX,
    ensures
        final(out)@ == old(out)@ + mp_key(name),
{
    push_str(out, name);
}

/// The keys of the packed forms are short.
pub proof fn lemma_key_lengths()
    ensures
        "a".spec_bytes().len() <= u32::MAX,
        "b".spec_bytes().len() <= u32::MAX,
        "p".spec_bytes().len() <= u32::MAX,
        "s".spec_bytes().len() <= u32::MAX,
        "r".spec_bytes().len() <= u32::MAX,
        "t".spec_bytes().len() <= u32::MAX,
        "o".spec_bytes().len() <= u32::MAX,
        "limit".spec_bytes().len() <= u32::MAX,
        "tif".spec_bytes().len() <= u32::MAX,
        "type".spec_bytes().len() <= u32::MAX,
        "orders".spec_bytes().len() <= u32::MAX,
        "grouping".spec_bytes().len() <= u32::MAX,
        "cancel".spec_bytes().len() <= u32::MAX,
        "cancels".spec_bytes().len() <= u32::MAX,
{
    reveal_strlit("a");
    reveal_strlit("b");
    reveal_strlit("p");
    reveal_strlit("s");
    reveal_strlit("r");
    reveal_strlit("t");
    reveal_strlit("o");
    reveal_strlit("limit");
    reveal_strlit("tif");
    reveal_strlit("type");
    reveal_strlit("orders");
    reveal_strlit("grouping");
    reveal_strlit("cancel");
    reveal_strlit("cancels");
    lemma_short_text("a"@);
    lemma_short_text("b"@);
    lemma_short_text("p"@);
    lemma_short_text("s"@);
    lemma_short_text("r"@);
    lemma_short_text("t"@);
    lemma_short_text("o"@);
    lemma_short_text("limit"@);
    lemma_short_text("tif"@);
    lemma_short_text("type"@);
    lemma_short_text("orders"@);
    lemma_short_text("grouping"@);
    lemma_short_text("cancel"@);
    lemma_short_text("cancels"@);
}

/// The UTF-8 form of a text takes at most four bytes per character.
pub proof fn lemma_short_text(chars: Seq<char>)
    ensures
        encode_utf8(chars).len() <= 4 * chars.len(),
    decreases chars.len(),
{
    reveal_with_fuel(encode_utf8, 2);
    if chars.len() > 0 {
        lemma_short_text(chars.drop_first());
    }
}

/// Appending is associative.
pub proof fn lemma_append_assoc(a: Seq<u8>, b: Seq<u8>, c: Seq<u8>)
    ensures
        (a + b) + c == a + (b + c),
{
    assert((a + b) + c =~= a + (b + c));
}

/// Appends a packed order.
pub fn push_order(out: &mut Vec<u8>, o: &OrderRequest)
    requires
        o@.limit_px.len() <= u32::MAX,
        o@.sz.len() <= u32::MAX,
        o@.tif.len() <= u32::MAX,
    ensures
        final(out)@ == old(out)@ + pack_order_spec(o@),
{
    proof {
        lemma_key_lengths();
    }
    push_map_header(out, 6);
    let ghost acc = mp_map_header(6);
    push_key(out, "a");
    proof {
        lemma_append_assoc(old(out)@, acc, mp_key("a"));
    }
    let ghost acc = acc + mp_key("a");
    push_uint(out, o.asset as u64);
    proof {
        lemma_append_assoc(old(out)@, acc, mp_uint(o@.asset));
    }
    let ghost acc = acc + mp_uint(o@.asset);
    push_key(out, "b");
    proof {
        lemma_append_assoc(old(out)@, acc, mp_key("b"));
    }
    let ghost acc = acc + mp_key("b");
    push_bool(out, o.is_buy);
    proof {
        lemma_append_assoc(old(out)@, acc, mp_bool(o@.is_buy));
    }
    let ghost acc = acc + mp_bool(o@.is_buy);
    push_key(out, "p");
    proof {
        lemma_append_assoc(old(out)@, acc, mp_key("p"));
    }
    let ghost acc = acc + mp_key("p");
    push_str(out, o.limit_px.as_str());
    proof {
        lemma_append_assoc(old(out)@, acc, mp_str(o@.limit_px));
    }
    let ghost acc = acc + mp_str(o@.limit_px);
    push_key(out, "s");
    proof {
        lemma_append_assoc(old(out)@, acc, mp_key("s"));
    }
    let ghost acc = acc + mp_key("s");
    push_str(out, o.sz.as_str());
    proof {
        lemma_append_assoc(old(out)@, acc, mp_str(o@.sz));
    }
    let ghost acc = acc + mp_str(o@.sz);
    push_key(out, "r");
    proof {
        lemma_append_assoc(old(out)@, acc, mp_key("r"));
    }
    let ghost acc = acc + mp_key("r");
    push_bool(out, o.reduce_only);
    proof {
        lemma_append_assoc(old(out)@, acc, mp_bool(o@.reduce_only));
    }
    let ghost acc = acc + mp_bool(o@.reduce_only);
    push_key(out, "t");
    proof {
        lemma_append_assoc(old(out)@, acc, mp_key("t"));
    }
    let ghost acc = acc + mp_key("t");
    push_map_header(out, 1);
    proof {
        lemma_append_assoc(old(out)@, acc, mp_map_header(1));
    }
    let ghost acc = acc + mp_map_header(1);
    push_key(out, "limit");
    proof {
        lemma_append_assoc(old(out)@, acc, mp_key("limit"));
    }
    let ghost acc = acc + mp_key("limit");
    push_map_header(out, 1);
    proof {
        lemma_append_assoc(old(out)@, acc, mp_map_header(1));
    }
    let ghost acc = acc + mp_map_header(1);
    push_key(out, "tif");
    proof {
        lemma_append_assoc(old(out)@, acc, mp_key("tif"));
    }
    let ghost acc = acc + mp_key("tif");
    push_str(out, o.tif());
    proof {
        lemma_append_assoc(old(out)@, acc, mp_str(o@.tif));
    }
    let ghost acc = acc + mp_str(o@.tif);
}

/// The packed form of an order action.
pub fn pack_action(action: &ActionWire) -> (out: Vec<u8>)
    requires
        action.packable(),
    ensures
        out@ == pack_action_spec(action@),
{
    proof {
        lemma_key_lengths();
    }
    let mut out: Vec<u8> = Vec::new();
    let ghost empty = out@;
    push_map_header(&mut out, 3);
    let ghost acc = mp_map_header(3);
    assert(out@ =~= acc);
    push_key(&mut out, "type");
    let ghost acc = acc + mp_key("type");
    push_str(&mut out, action.action_type.as_str());
    let ghost acc = acc + mp_str(action@.action_type);
    push_key(&mut out, "orders");
    let ghost acc = acc + mp_key("orders");
    push_array_header(&mut out, action.orders.len());
    let ghost acc = acc + mp_array_header(action@.orders.len());
    let ghost head = out@;
    let mut i: usize = 0;
    assert(order_views(action.orders@).subrange(0, 0) =~= Seq::<OrderView>::empty());
    assert(out@ =~= head + pack_orders_spec(order_views(action.orders@).subrange(0, 0)));
    while i < action.orders.len()
        invariant
            i <= action.orders@.len(),
            action.packable(),
            out@ == head + pack_orders_spec(order_views(action.orders@).subrange(0, i as int)),
        decreases action.orders@.len() - i,
    {
        proof {
            let views = order_views(action.orders@);
            let next = views.subrange(0, i as int + 1);
            assert(next.drop_last() =~= views.subrange(0, i as int));
            assert(next.last() == action.orders@[i as int]@);
            assert(action@.orders[i as int] == action.orders@[i as int]@);
            lemma_append_assoc(
                head,
                pack_orders_spec(views.subrange(0, i as int)),
                pack_order_spec(action.orders@[i as int]@),
            );
        }
        push_order(&mut out, &action.orders[i]);
        i += 1;
    }
    proof {
        let views = order_views(action.orders@);
        assert(views.subrange(0, views.len() as int) =~= views);
    }
    let ghost acc = acc + pack_orders_spec(action@.orders);
    assert(out@ == acc);
    push_key(&mut out, "grouping");
    let ghost acc = acc + mp_key("grouping");
    push_str(&mut out, action.grouping.as_str());
    let ghost acc = acc + mp_str(action@.grouping);
    assert(out@ == acc);
    out
}

/// The packed form of a cancel action of one order.
pub fn pack_cancel(asset: u32, oid: u64) -> (out: Vec<u8>)
    ensures
        out@ == pack_cancel_spec(asset as nat, oid as nat),
{
    proof {
        lemma_key_lengths();
    }
    let mut out: Vec<u8> = Vec::new();
    push_map_header(&mut out, 2);
    let ghost acc = mp_map_header(2);
    assert(out@ =~= acc);
    push_key(&mut out, "type");
    let ghost acc = acc + mp_key("type");
    push_key(&mut out, "cancel");
    let ghost acc = acc + mp_key("cancel");
    push_key(&mut out, "cancels");
    let ghost acc = acc + mp_key("cancels");
    push_array_header(&mut out, 1);
    let ghost acc = acc + mp_array_header(1);
    push_map_header(&mut out, 2);
    let ghost acc = acc + mp_map_header(2);
    push_key(&mut out, "a");
    let ghost acc = acc + mp_key("a");
    push_uint(&mut out, asset as u64);
    let ghost acc = acc + mp_uint(asset as nat);
    push_key(&mut out, "o");
    let ghost acc = acc + mp_key("o");
    push_uint(&mut out, oid);
    let ghost acc = acc + mp_uint(oid as nat);
    assert(out@ == acc);
    out
}

/// The Keccak-256 hash of a byte string.
pub uninterp spec fn keccak256_spec(data: Seq<u8>) -> Seq<u8>;

/// `ethers_core::utils::keccak256`: the Keccak-256 hash of the bytes, which
/// is 32 bytes long.
#[verifier::external_body]
fn keccak256(data: &[u8]) -> (h: Vec<u8>)
    ensures
        h@ == keccak256_spec(data@),
        h@.len() == 32,
{
    ethers_core::utils::keccak256(data).to_vec()
}

/// The type string of a typed-data domain with name, version, chain id and
/// verifying contract.
pub open spec fn domain_type_text() -> Seq<char> {
    "EIP712Domain(string name,string version,uint256 chainId,address verifyingContract)"@
}

/// The separator of a typed-data domain: the hash of the hashed type
/// string, the hashed name, the hashed version, the chain id as a 32-byte
/// number and the contract address padded to 32 bytes.
pub open spec fn domain_separator_spec(
    name: Seq<char>,
    version: Seq<char>,
    chain_id: u64,
    verifying_contract: Seq<u8>,
) -> Seq<u8> {
    keccak256_spec(
        keccak256_spec(encode_utf8(domain_type_text())) + keccak256_spec(encode_utf8(name))
            + keccak256_spec(encode_utf8(version)) + be_bytes(0, 24) + be_bytes(chain_id as nat, 8)
            + be_bytes(0, 12) + verifying_contract,
    )
}

/// `EIP712Domain::separator` of `ethers_core`, for a domain with a name, a
/// version, a chain id and a verifying contract and without a salt.
#[verifier::external_body]
fn domain_separator(name: &str, version: &str, chain_id: u64, verifying_contract: &[u8]) -> (h:
    Vec<u8>)
    requires
        verifying_contract@.len() == 20,
    ensures
        h@ == domain_separator_spec(name@, version@, chain_id, verifying_contract@),
        h@.len() == 32,
{
    let domain = EIP712Domain {
        name: Some(name.to_string()),
        version: Some(version.to_string()),
        chain_id: Some(U256::from(chain_id)),
        verifying_contract: Some(Address::from_slice(verifying_contract)),
        salt: None,
    };
    domain.separator().to_vec()
}

/// The two numbers and the recovery value of a signature.
#[derive(Debug)]
pub struct RawSignature {
    /// 32 bytes, most significant first.
    pub r: Vec<u8>,
    /// 32 bytes, most significant first.
    pub s: Vec<u8>,
    pub v: u64,
}

/// What the wallet of a private key signs a digest with: `r`, `s` and `v`;
/// none where the key is no key or the digest cannot be signed.
pub uninterp spec fn wallet_signature(private_key: Seq<char>, digest: Seq<u8>) -> Option<
    (Seq<u8>, Seq<u8>, u64),
>;

/// `LocalWallet::sign_hash` of `ethers_signers`, with the wallet made from
/// the private key by `LocalWallet::from_str`: the signature of the digest,
/// `r` and `s` as 32 bytes each and `v` as 27 plus a recovery id of at most
/// three, or the text of the error.
#[verifier::external_body]
fn sign_digest(private_key: &str, digest: &[u8]) -> (r: Result<RawSignature, String>)
    requires
        digest@.len() == 32,
    ensures
        match r {
            Ok(sig) => wallet_signature(private_key@, digest@) == Some((sig.r@, sig.s@, sig.v))
                && sig.r@.len() == 32 && sig.s@.len() == 32 && 27 <= sig.v <= 30,
            Err(_) => wallet_signature(private_key@, digest@) is None,
        },
{
    let wallet = LocalWallet::from_str(private_key).map_err(|e| e.to_string())?;
    let sig = wallet.sign_hash(H256::from_slice(digest)).map_err(|e| e.to_string())?;
    let mut r = [0u8; 32];
    let mut s = [0u8; 32];
    sig.r.to_big_endian(&mut r);
    sig.s.to_big_endian(&mut s);
    Ok(RawSignature { r: r.to_vec(), s: s.to_vec(), v: sig.v })
}

/// The value of a hex digit, upper or lower case.
pub open spec fn hex_value(c: u8) -> Option<u8> {
    if 48 <= c <= 57 {
        Some((c - 48) as u8)
    } else if 97 <= c <= 102 {
        Some((c - 87) as u8)
    } else if 65 <= c <= 70 {
        Some((c - 55) as u8)
    } else {
        None
    }
}

/// The bytes that a hex text writes: none for an odd length or a character
/// that is no hex digit.
pub open spec fn hex_decode_spec(text: Seq<u8>) -> Option<Seq<u8>> {
    if text.len() % 2 != 0 || exists|i: int| 0 <= i < text.len() && hex_value(text[i]) is None {
        None
    } else {
        Some(
            Seq::new(
                text.len() / 2,
                |i: int| (hex_value(text[2 * i])->0 * 16 + hex_value(text[2 * i + 1])->0) as u8,
            ),
        )
    }
}

/// `hex::decode`: the bytes that a hex text writes.
#[verifier::external_body]
fn hex_decode(text: &[u8]) -> (r: Option<Vec<u8>>)
    ensures
        match r {
            Some(bytes) => hex_decode_spec(text@) == Some(bytes@),
            None => hex_decode_spec(text@) is None,
        },
{
    hex::decode(text).ok()
}

/// A text without a leading `0x`.
pub open spec fn strip_0x(text: Seq<u8>) -> Seq<u8> {
    if text.len() >= 2 && text[0] == 48 && text[1] == 120 {
        text.subrange(2, text.len() as int)
    } else {
        text
    }
}

/// What follows the nonce in the hashed bytes: `0x00` without a vault;
/// with one, `0x01` and the bytes of the address where it reads as hex.
pub open spec fn vault_suffix(vault_address: Option<Seq<u8>>) -> Seq<u8> {
    match vault_address {
        None => seq![0u8],
        Some(text) => match hex_decode_spec(strip_0x(text)) {
            Some(bytes) => seq![1u8] + bytes,
            None => seq![1u8],
        },
    }
}

/// The bytes that are hashed for an action: the packed action, the nonce as
/// eight bytes, most significant first, and the vault suffix.
pub open spec fn hash_input_spec(packed: Seq<u8>, nonce: u64, vault_address: Option<Seq<u8>>) -> Seq<
    u8,
> {
    packed + be_bytes(nonce as nat, 8) + vault_suffix(vault_address)
}

/// The action hash of a packed action.
pub open spec fn action_hash_spec(packed: Seq<u8>, nonce: u64, vault_address: Option<Seq<u8>>) -> Seq<
    u8,
> {
    keccak256_spec(hash_input_spec(packed, nonce, vault_address))
}

/// Completes a packed action to the bytes that are hashed.
pub fn hash_input(packed: Vec<u8>, nonce: u64, vault_address: Option<&str>) -> (buf: Vec<u8>)
    ensures
        buf@ == hash_input_spec(
            packed@,
            nonce,
            match vault_address {
                Some(a) => Some(a.spec_bytes()),
                None => None,
            },
        ),
{
    let mut buf = packed;
    push_be(&mut buf, nonce, 8);
    match vault_address {
        None => {
            buf.push(0x00);
            assert(buf@ =~= packed@ + be_bytes(nonce as nat, 8) + seq![0u8]);
        },
        Some(addr) => {
            buf.push(0x01);
            let text = addr.as_bytes();
            let decoded = if text.len() >= 2 && text[0] == 48 && text[1] == 120 {
                let mut rest: Vec<u8> = Vec::new();
                let mut i: usize = 2;
                while i < text.len()
                    invariant
                        2 <= i <= text@.len(),
                        rest@ == text@.subrange(2, i as int),
                    decreases text@.len() - i,
                {
                    rest.push(text[i]);
                    assert(rest@ =~= text@.subrange(2, i as int + 1));
                    i += 1;
                }
                hex_decode(rest.as_slice())
            } else {
                hex_decode(text)
            };
            match decoded {
                Some(bytes) => {
                    push_bytes(&mut buf, bytes.as_slice());
                    assert(buf@ =~= packed@ + be_bytes(nonce as nat, 8) + (seq![1u8] + bytes@));
                },
                None => {
                    assert(buf@ =~= packed@ + be_bytes(nonce as nat, 8) + seq![1u8]);
                },
            }
        },
    }
    buf
}

/// Computes the hash of an order action: the Keccak-256 hash of the packed
/// action, the nonce and the vault suffix.
pub fn compute_action_hash(action: &ActionWire, nonce: u64, vault_address: Option<&str>) -> (h:
    Vec<u8>)
    requires
        action.packable(),
    ensures
        h@ == action_hash_spec(
            pack_action_spec(action@),
            nonce,
            match vault_address {
                Some(a) => Some(a.spec_bytes()),
                None => None,
            },
        ),
        h@.len() == 32,
{
    let buf = hash_input(pack_action(action), nonce, vault_address);
    keccak256(buf.as_slice())
}

/// The type string of the agent message.
pub open spec fn agent_type_text() -> Seq<char> {
    "Agent(string source,bytes32 connectionId)"@
}

/// The domain that actions are signed under: `Exchange`, version `1`,
/// chain 1337, the zero contract.
pub open spec fn exchange_domain_spec() -> Seq<u8> {
    domain_separator_spec("Exchange"@, "1"@, 1337, be_bytes(0, 20))
}

/// The typed-data digest of an action hash: the agent message `{source,
/// connectionId: action hash}` hashed under the exchange domain.
pub open spec fn agent_digest_spec(action_hash: Seq<u8>, source: Seq<char>) -> Seq<u8> {
    keccak256_spec(
        seq![0x19u8, 0x01u8] + exchange_domain_spec() + keccak256_spec(
            keccak256_spec(encode_utf8(agent_type_text())) + keccak256_spec(encode_utf8(source))
                + action_hash,
        ),
    )
}

/// Computes the typed-data digest that is signed for an action hash.
/// `source` is `"a"` on mainnet and `"b"` on testnet.
pub fn agent_digest(action_hash: &[u8], source: &str) -> (d: Vec<u8>)
    ensures
        d@ == agent_digest_spec(action_hash@, source@),
        d@.len() == 32,
{
    let mut zero: Vec<u8> = Vec::new();
    push_be(&mut zero, 0, 8);
    push_be(&mut zero, 0, 8);
    push_be(&mut zero, 0, 4);
    proof {
        lemma_be_zero(20);
        lemma_be_zero(8);
        lemma_be_zero(4);
        assert(zero@ =~= be_bytes(0, 20));
    }
    let domain = domain_separator("Exchange", "1", 1337, zero.as_slice());
    let type_hash = keccak256("Agent(string source,bytes32 connectionId)".as_bytes());
    let source_hash = keccak256(source.as_bytes());
    let mut encoded: Vec<u8> = Vec::new();
    push_bytes(&mut encoded, type_hash.as_slice());
    push_bytes(&mut encoded, source_hash.as_slice());
    push_bytes(&mut encoded, action_hash);
    assert(encoded@ =~= type_hash@ + source_hash@ + action_hash@);
    let struct_hash = keccak256(encoded.as_slice());
    let mut payload: Vec<u8> = Vec::new();
    payload.push(0x19);
    payload.push(0x01);
    push_bytes(&mut payload, domain.as_slice());
    push_bytes(&mut payload, struct_hash.as_slice());
    assert(payload@ =~= seq![0x19u8, 0x01u8] + domain@ + struct_hash@);
    keccak256(payload.as_slice())
}

/// Zero written in `width` bytes is `width` zero bytes.
pub proof fn lemma_be_zero(width: nat)
    ensures
        be_bytes(0, width).len() == width,
        forall|i: int| 0 <= i < width ==> be_bytes(0, width)[i] == 0,
    decreases width,
{
    if width > 0 {
        lemma_be_zero((width - 1) as nat);
    }
}

/// A lower-case hex digit.
pub open spec fn hex_digit(v: int) -> u8 {
    if v < 10 {
        (48 + v) as u8
    } else {
        (87 + v) as u8
    }
}

/// Bytes written as lower-case hex, two digits each.
pub open spec fn hex_lower(bytes: Seq<u8>) -> Seq<u8> {
    Seq::new(
        2 * bytes.len(),
        |i: int|
            if i % 2 == 0 {
                hex_digit(bytes[i / 2] as int / 16)
            } else {
                hex_digit(bytes[i / 2] as int % 16)
            },
    )
}

/// The wire form of one number of a signature: `0x` and the bytes in hex.
pub open spec fn hex_word(bytes: Seq<u8>) -> Seq<char> {
    bytes_as_chars(seq![48u8, 120u8] + hex_lower(bytes))
}

/// Writes bytes as `0x` and lower-case hex.
pub fn hex_word_text(bytes: &[u8]) -> (t: String)
    ensures
        t@ == hex_word(bytes@),
{
    let mut out: Vec<u8> = Vec::new();
    out.push(48);
    out.push(120);
    let mut i: usize = 0;
    while i < bytes.len()
        invariant
            i <= bytes@.len(),
            out@ == seq![48u8, 120u8] + hex_lower(bytes@.subrange(0, i as int)),
            forall|k: int| 0 <= k < out@.len() ==> (#[trigger] out@[k]) < 128,
        decreases bytes@.len() - i,
    {
        let b = bytes[i];
        let hi = b / 16;
        let lo = b % 16;
        out.push(
            if hi < 10 {
                48 + hi
            } else {
                87 + hi
            },
        );
        out.push(
            if lo < 10 {
                48 + lo
            } else {
                87 + lo
            },
        );
        proof {
            let prev = bytes@.subrange(0, i as int);
            let next = bytes@.subrange(0, i as int + 1);
            assert(out@ =~= seq![48u8, 120u8] + hex_lower(next)) by {
                assert forall|k: int| 0 <= k < 2 * next.len() implies hex_lower(next)[k] == (
                seq![48u8, 120u8] + hex_lower(prev) + seq![hex_digit(b as int / 16)] + seq![
                    hex_digit(b as int % 16),
                ])[k + 2] by {
                    if k < 2 * prev.len() {
                        assert(next[k / 2] == prev[k / 2]);
                        assert(hex_lower(prev)[k] == hex_lower(next)[k]);
                    } else {
                        assert(next[k / 2] == b);
                    }
                }
            }
        }
        i += 1;
    }
    proof {
        assert(bytes@.subrange(0, bytes@.len() as int) =~= bytes@);
    }
    ascii_string(&out)
}

/// A word written as `0x` and hex is two characters longer than twice its
/// bytes.
pub proof fn lemma_hex_word_len(bytes: Seq<u8>)
    ensures
        hex_word(bytes).len() == 2 + 2 * bytes.len(),
{
}

/// Whether a raw signature has a wire form: `r` and `s` are 32 bytes each
/// and `v` is 27 or 28.
pub open spec fn has_wire_form(r: Seq<u8>, s: Seq<u8>, v: u64) -> bool {
    r.len() == 32 && s.len() == 32 && (v == 27 || v == 28)
}

/// The wire form of a signature: `r` and `s` as `0x` and 64 hex digits, `v`
/// as 27 or 28. A signature without a wire form is an invalid order.
pub fn signature_from_raw(raw: &RawSignature) -> (r: Result<Signature, OrderError>)
    ensures
        has_wire_form(raw.r@, raw.s@, raw.v) ==> {
            &&& r matches Ok(sig)
            &&& sig.r@ == hex_word(raw.r@)
            &&& sig.s@ == hex_word(raw.s@)
            &&& sig.v == raw.v
            &&& sig.r@.len() == 66
            &&& sig.s@.len() == 66
        },
        !has_wire_form(raw.r@, raw.s@, raw.v) ==> (r matches Err(OrderError::InvalidOrder(t)) && t@
            == "Signature has no wire form"@),
{
    if raw.r.len() != 32 || raw.s.len() != 32 || !(raw.v == 27 || raw.v == 28) {
        return Err(OrderError::InvalidOrder("Signature has no wire form".to_owned()));
    }
    proof {
        lemma_hex_word_len(raw.r@);
        lemma_hex_word_len(raw.s@);
    }
    Ok(
        Signature {
            r: hex_word_text(raw.r.as_slice()),
            s: hex_word_text(raw.s.as_slice()),
            v: raw.v as u8,
        },
    )
}

/// What signing an action hash yields: the signature of its mainnet digest
/// in wire form, or an invalid-order error where the key cannot sign or the
/// signature has no wire form.
pub open spec fn signed_as(
    r: Result<Signature, OrderError>,
    private_key: Seq<char>,
    action_hash: Seq<u8>,
) -> bool {
    match wallet_signature(private_key, agent_digest_spec(action_hash, "a"@)) {
        Some((sr, ss, sv)) => if has_wire_form(sr, ss, sv) {
            &&& r is Ok
            &&& r->Ok_0.r@ == hex_word(sr)
            &&& r->Ok_0.s@ == hex_word(ss)
            &&& r->Ok_0.v == sv
        } else {
            r is Err && r->Err_0 is InvalidOrder
        },
        None => r is Err && r->Err_0 is InvalidOrder,
    }
}

/// A signature in wire form: `r` and `s` are `0x` and 64 hex digits, `v` is
/// 27 or 28.
pub open spec fn is_wire_signature(sig: Signature) -> bool {
    sig.r@.len() == 66 && sig.s@.len() == 66 && (sig.v == 27 || sig.v == 28)
}

/// Signs an action hash with the account's key, under the mainnet source.
pub fn sign_action_hash(private_key: &str, action_hash: &[u8]) -> (r: Result<Signature, OrderError>)
    ensures
        signed_as(r, private_key@, action_hash@),
        r matches Ok(sig) ==> is_wire_signature(sig),
{
    let digest = agent_digest(action_hash, "a");
    match sign_digest(private_key, digest.as_slice()) {
        Ok(raw) => signature_from_raw(&raw),
        Err(text) => Err(OrderError::InvalidOrder(text)),
    }
}

/// One byte of a text inside a JSON string.
pub open spec fn json_escape_byte(b: u8) -> Seq<u8> {
    if b == 0x22 {
        seq![0x5cu8, 0x22u8]
    } else if b == 0x5c {
        seq![0x5cu8, 0x5cu8]
    } else if b == 0x08 {
        seq![0x5cu8, 0x62u8]
    } else if b == 0x0c {
        seq![0x5cu8, 0x66u8]
    } else if b == 0x0a {
        seq![0x5cu8, 0x6eu8]
    } else if b == 0x0d {
        seq![0x5cu8, 0x72u8]
    } else if b == 0x09 {
        seq![0x5cu8, 0x74u8]
    } else if b < 0x20 {
        seq![0x5cu8, 0x75u8, 0x30u8, 0x30u8, hex_digit(b as int / 16), hex_digit(b as int % 16)]
    } else {
        seq![b]
    }
}

/// The bytes of a text escaped for a JSON string.
pub open spec fn json_escape(text: Seq<u8>) -> Seq<u8>
    decreases text.len(),
{
    if text.len() == 0 {
        Seq::empty()
    } else {
        json_escape(text.drop_last()) + json_escape_byte(text.last())
    }
}

/// A JSON string: the escaped text between quotes.
pub open spec fn json_string(text: Seq<u8>) -> Seq<u8> {
    seq![0x22u8] + json_escape(text) + seq![0x22u8]
}

pub open spec fn json_bool(b: bool) -> Seq<u8> {
    if b {
        encode_utf8("true"@)
    } else {
        encode_utf8("false"@)
    }
}

/// The bytes of a literal text.
pub open spec fn lit(text: &str) -> Seq<u8> {
    encode_utf8(text@)
}

/// The JSON form of an order, keys in the order `a, b, p, s, r, t`.
pub open spec fn order_json_spec(o: OrderView) -> Seq<u8> {
    lit("{\"a\":") + dec_digits(o.asset) + lit(",\"b\":") + json_bool(o.is_buy) + lit(",\"p\":")
        + json_string(o.limit_px) + lit(",\"s\":") + json_string(o.sz) + lit(",\"r\":") + json_bool(
        o.reduce_only,
    ) + lit(",\"t\":{\"limit\":{\"tif\":") + json_string(o.tif) + lit("}}}")
}

/// The JSON forms of orders, separated by commas.
pub open spec fn orders_json_spec(orders: Seq<OrderView>) -> Seq<u8>
    decreases orders.len(),
{
    if orders.len() == 0 {
        Seq::empty()
    } else if orders.len() == 1 {
        order_json_spec(orders.last())
    } else {
        orders_json_spec(orders.drop_last()) + lit(",") + order_json_spec(orders.last())
    }
}

/// The JSON form of an order action, keys in the order `type, orders,
/// grouping`.
pub open spec fn action_json_spec(a: ActionView) -> Seq<u8> {
    lit("{\"type\":") + json_string(a.action_type) + lit(",\"orders\":[") + orders_json_spec(
        a.orders,
    ) + lit("],\"grouping\":") + json_string(a.grouping) + lit("}")
}

/// The JSON form of a cancel action of one order.
pub open spec fn cancel_json_spec(asset: nat, oid: nat) -> Seq<u8> {
    lit("{\"type\":\"cancel\",\"cancels\":[{\"a\":") + dec_digits(asset) + lit(",\"o\":")
        + dec_digits(oid) + lit("}]}")
}

/// Appends the bytes of a text.
pub fn push_lit(out: &mut Vec<u8>, text: &str)
    ensures
        final(out)@ == old(out)@ + lit(text),
{
    push_bytes(out, text.as_bytes());
}

/// Appends a JSON boolean.
pub fn push_json_bool(out: &mut Vec<u8>, b: bool)
    ensures
        final(out)@ == old(out)@ + json_bool(b),
{
    if b {
        push_lit(out, "true");
    } else {
        push_lit(out, "false");
    }
}

/// Appends a JSON string.
pub fn push_json_string(out: &mut Vec<u8>, text: &str)
    ensures
        final(out)@ == old(out)@ + json_string(text.spec_bytes()),
{
    let bytes = text.as_bytes();
    out.push(0x22);
    let ghost head = out@;
    let mut i: usize = 0;
    assert(json_escape(bytes@.subrange(0, 0)) =~= Seq::<u8>::empty());
    assert(out@ =~= head + json_escape(bytes@.subrange(0, 0)));
    while i < bytes.len()
        invariant
            i <= bytes@.len(),
            out@ == head + json_escape(bytes@.subrange(0, i as int)),
        decreases bytes@.len() - i,
    {
        let b = bytes[i];
        let ghost before = out@;
        if b == 0x22 {
            out.push(0x5c);
            out.push(0x22);
        } else if b == 0x5c {
            out.push(0x5c);
            out.push(0x5c);
        } else if b == 0x08 {
            out.push(0x5c);
            out.push(0x62);
        } else if b == 0x0c {
            out.push(0x5c);
            out.push(0x66);
        } else if b == 0x0a {
            out.push(0x5c);
            out.push(0x6e);
        } else if b == 0x0d {
            out.push(0x5c);
            out.push(0x72);
        } else if b == 0x09 {
            out.push(0x5c);
            out.push(0x74);
        } else if b < 0x20 {
            let hi = b / 16;
            let lo = b % 16;
            out.push(0x5c);
            out.push(0x75);
            out.push(0x30);
            out.push(0x30);
            out.push(48 + hi);
            out.push(
                if lo < 10 {
                    48 + lo
                } else {
                    87 + lo
                },
            );
        } else {
            out.push(b);
        }
        proof {
            assert(out@ =~= before + json_escape_byte(b));
            let next = bytes@.subrange(0, i as int + 1);
            assert(next.drop_last() =~= bytes@.subrange(0, i as int));
            assert(next.last() == b);
            lemma_append_assoc(head, json_escape(bytes@.subrange(0, i as int)), json_escape_byte(b));
        }
        i += 1;
    }
    proof {
        assert(bytes@.subrange(0, bytes@.len() as int) =~= bytes@);
    }
    out.push(0x22);
    assert(out@ =~= old(out)@ + json_string(text.spec_bytes()));
}

/// Appends the JSON form of an order.
pub fn push_order_json(out: &mut Vec<u8>, o: &OrderRequest)
    ensures
        final(out)@ == old(out)@ + order_json_spec(o@),
{
    push_lit(out, "{\"a\":");
    let ghost acc = lit("{\"a\":");
    push_decimal(out, o.asset as u64);
    proof {
        lemma_append_assoc(old(out)@, acc, dec_digits(o@.asset));
    }
    let ghost acc = acc + dec_digits(o@.asset);
    push_lit(out, ",\"b\":");
    proof {
        lemma_append_assoc(old(out)@, acc, lit(",\"b\":"));
    }
    let ghost acc = acc + lit(",\"b\":");
    push_json_bool(out, o.is_buy);
    proof {
        lemma_append_assoc(old(out)@, acc, json_bool(o@.is_buy));
    }
    let ghost acc = acc + json_bool(o@.is_buy);
    push_lit(out, ",\"p\":");
    proof {
        lemma_append_assoc(old(out)@, acc, lit(",\"p\":"));
    }
    let ghost acc = acc + lit(",\"p\":");
    push_json_string(out, o.limit_px.as_str());
    proof {
        lemma_append_assoc(old(out)@, acc, json_string(o@.limit_px));
    }
    let ghost acc = acc + json_string(o@.limit_px);
    push_lit(out, ",\"s\":");
    proof {
        lemma_append_assoc(old(out)@, acc, lit(",\"s\":"));
    }
    let ghost acc = acc + lit(",\"s\":");
    push_json_string(out, o.sz.as_str());
    proof {
        lemma_append_assoc(old(out)@, acc, json_string(o@.sz));
    }
    let ghost acc = acc + json_string(o@.sz);
    push_lit(out, ",\"r\":");
    proof {
        lemma_append_assoc(old(out)@, acc, lit(",\"r\":"));
    }
    let ghost acc = acc + lit(",\"r\":");
    push_json_bool(out, o.reduce_only);
    proof {
        lemma_append_assoc(old(out)@, acc, json_bool(o@.reduce_only));
    }
    let ghost acc = acc + json_bool(o@.reduce_only);
    push_lit(out, ",\"t\":{\"limit\":{\"tif\":");
    proof {
        lemma_append_assoc(old(out)@, acc, lit(",\"t\":{\"limit\":{\"tif\":"));
    }
    let ghost acc = acc + lit(",\"t\":{\"limit\":{\"tif\":");
    push_json_string(out, o.tif());
    proof {
        lemma_append_assoc(old(out)@, acc, json_string(o@.tif));
    }
    let ghost acc = acc + json_string(o@.tif);
    push_lit(out, "}}}");
    proof {
        lemma_append_assoc(old(out)@, acc, lit("}}}"));
    }
}

/// The JSON form of an order action, as UTF-8 bytes, with the keys in the
/// order in which the packed form has them.
pub fn action_json(action: &ActionWire) -> (out: Vec<u8>)
    ensures
        out@ == action_json_spec(action@),
{
    let mut out: Vec<u8> = Vec::new();
    push_lit(&mut out, "{\"type\":");
    let ghost acc = lit("{\"type\":");
    assert(out@ =~= acc);
    push_json_string(&mut out, action.action_type.as_str());
    let ghost acc = acc + json_string(action@.action_type);
    push_lit(&mut out, ",\"orders\":[");
    let ghost acc = acc + lit(",\"orders\":[");
    let ghost head = out@;
    let mut i: usize = 0;
    assert(order_views(action.orders@).subrange(0, 0) =~= Seq::<OrderView>::empty());
    assert(out@ =~= head + orders_json_spec(order_views(action.orders@).subrange(0, 0)));
    while i < action.orders.len()
        invariant
            i <= action.orders@.len(),
            out@ == head + orders_json_spec(order_views(action.orders@).subrange(0, i as int)),
        decreases action.orders@.len() - i,
    {
        let ghost views = order_views(action.orders@);
        let ghost done = orders_json_spec(views.subrange(0, i as int));
        proof {
            let next = views.subrange(0, i as int + 1);
            assert(next.drop_last() =~= views.subrange(0, i as int));
            assert(next.last() == action.orders@[i as int]@);
        }
        if i > 0 {
            push_lit(&mut out, ",");
            proof {
                lemma_append_assoc(head, done, lit(","));
                lemma_append_assoc(head, done + lit(","), order_json_spec(action.orders@[i as int]@));
            }
        } else {
            proof {
                assert(done =~= Seq::<u8>::empty());
                assert(head + done =~= head);
            }
        }
        push_order_json(&mut out, &action.orders[i]);
        i += 1;
    }
    proof {
        let views = order_views(action.orders@);
        assert(views.subrange(0, views.len() as int) =~= views);
    }
    let ghost acc = acc + orders_json_spec(action@.orders);
    assert(out@ == acc);
    push_lit(&mut out, "],\"grouping\":");
    let ghost acc = acc + lit("],\"grouping\":");
    push_json_string(&mut out, action.grouping.as_str());
    let ghost acc = acc + json_string(action@.grouping);
    push_lit(&mut out, "}");
    let ghost acc = acc + lit("}");
    assert(out@ == acc);
    out
}

/// The JSON form of a cancel action of one order, as UTF-8 bytes.
pub fn cancel_json(asset: u32, oid: u64) -> (out: Vec<u8>)
    ensures
        out@ == cancel_json_spec(asset as nat, oid as nat),
{
    let mut out: Vec<u8> = Vec::new();
    push_lit(&mut out, "{\"type\":\"cancel\",\"cancels\":[{\"a\":");
    let ghost acc = lit("{\"type\":\"cancel\",\"cancels\":[{\"a\":");
    assert(out@ =~= acc);
    push_decimal(&mut out, asset as u64);
    let ghost acc = acc + dec_digits(asset as nat);
    push_lit(&mut out, ",\"o\":");
    let ghost acc = acc + lit(",\"o\":");
    push_decimal(&mut out, oid);
    let ghost acc = acc + dec_digits(oid as nat);
    push_lit(&mut out, "}]}");
    let ghost acc = acc + lit("}]}");
    assert(out@ == acc);
    out
}

/// Signs an order action for the given nonce.
///
/// Returns the signature of the action's hash (no vault) together with the
/// action's JSON form, or an invalid-order error where the key cannot sign.
/// For one key, action and nonce the result is always the same.
pub fn sign_l1_action(private_key: &str, action: &ActionWire, nonce: u64) -> (r: Result<
    (Signature, Vec<u8>),
    OrderError,
>)
    requires
        action.packable(),
    ensures
        signed_as(
            match r {
                Ok(pair) => Ok(pair.0),
                Err(e) => Err(e),
            },
            private_key@,
            action_hash_spec(pack_action_spec(action@), nonce, None),
        ),
        r matches Ok(pair) ==> pair.1@ == action_json_spec(action@) && is_wire_signature(pair.0),
{
    let action_hash = compute_action_hash(action, nonce, None);
    match sign_action_hash(private_key, action_hash.as_slice()) {
        Ok(sig) => Ok((sig, action_json(action))),
        Err(e) => Err(e),
    }
}

/// Signs the cancel of one order for the given nonce.
///
/// Returns the signature of the cancel action's hash (no vault) together
/// with the action's JSON form, or an invalid-order error where the key
/// cannot sign.
pub fn sign_cancel_action(private_key: &str, asset: u32, oid: u64, nonce: u64) -> (r: Result<
    (Signature, Vec<u8>),
    OrderError,
>)
    ensures
        signed_as(
            match r {
                Ok(pair) => Ok(pair.0),
                Err(e) => Err(e),
            },
            private_key@,
            action_hash_spec(pack_cancel_spec(asset as nat, oid as nat), nonce, None),
        ),
        r matches Ok(pair) ==> pair.1@ == cancel_json_spec(asset as nat, oid as nat)
            && is_wire_signature(pair.0),
{
    let buf = hash_input(pack_cancel(asset, oid), nonce, None);
    let action_hash = keccak256(buf.as_slice());
    match sign_action_hash(private_key, action_hash.as_slice()) {
        Ok(sig) => Ok((sig, cancel_json(asset, oid))),
        Err(e) => Err(e),
    }
}

} // verus!
