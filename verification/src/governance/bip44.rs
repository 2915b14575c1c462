//! BIP44 multi-account hierarchy: `m / purpose' / coin_type' / account' / change / address_index`.

use vstd::prelude::*;
use vstd::string::*;

use crate::governance::bip32::{
    agrees_with_private, derive_master_key, lemma_private_path_depth, lemma_private_path_err,
    lemma_private_path_step, master_key, private_child, private_path, public_child,
    secret_valid, xpub_of, ExtendedPrivateKey, ExtendedPublicKey, XprvModel, XpubModel,
};
use crate::governance::error::{is_input_error, is_key_error, GovernanceError, GovernanceResult};
use crate::text::{
    concat_str, decimal, decimal_string, is_digit, lemma_decimal_props, lemma_parse_decimal,
    lemma_trim_end_decimal, lemma_trim_end_decimal_suffix, parse_u32, parse_u32_spec, split_on,
    split_seq, string_of, trim_end, trim_end_char,
};

verus! {

/// BIP44 purpose (always 44 for the multi-account hierarchy).
pub const BIP44_PURPOSE: u32 = 44;

/// Registered BIP44 coin types.
#[derive(Debug, Clone, Copy, PartialEq, Eq, Structural)]
pub enum CoinType {
    /// Bitcoin mainnet (0)
    Bitcoin,
    /// Bitcoin testnet (1)
    BitcoinTestnet,
    /// Litecoin (2)
    Litecoin,
    /// Dogecoin (3)
    Dogecoin,
    /// Ethereum (60)
    Ethereum,
}

/// The registered number of a coin type.
pub open spec fn coin_type_number(c: CoinType) -> u32 {
    match c {
        CoinType::Bitcoin => 0,
        CoinType::BitcoinTestnet => 1,
        CoinType::Litecoin => 2,
        CoinType::Dogecoin => 3,
        CoinType::Ethereum => 60,
    }
}

/// The coin type registered under `value`, if it is one of the supported ones.
pub open spec fn coin_type_of(value: u32) -> Option<CoinType> {
    if value == 0 {
        Some(CoinType::Bitcoin)
    } else if value == 1 {
        Some(CoinType::BitcoinTestnet)
    } else if value == 2 {
        Some(CoinType::Litecoin)
    } else if value == 3 {
        Some(CoinType::Dogecoin)
    } else if value == 60 {
        Some(CoinType::Ethereum)
    } else {
        None
    }
}

/// Message of the error for an unsupported coin type number.
pub open spec fn unsupported_coin_message(value: u32) -> Seq<char> {
    "Unsupported coin type: "@ + decimal(value as nat)
}

impl CoinType {
    /// The registered coin type number.
    pub fn value(&self) -> (r: u32)
        ensures
            r == coin_type_number(*self),
    {
        match self {
            CoinType::Bitcoin => 0,
            CoinType::BitcoinTestnet => 1,
            CoinType::Litecoin => 2,
            CoinType::Dogecoin => 3,
            CoinType::Ethereum => 60,
        }
    }

    /// The coin type with registered number `value`; unsupported numbers are
    /// refused with an `InvalidInput` error.
    pub fn from_value(value: u32) -> (r: Result<CoinType, GovernanceError>)
        ensures
            coin_type_of(value) matches Some(c) ==> r == Ok::<CoinType, GovernanceError>(c),
            coin_type_of(value) is None ==> (r matches Err(GovernanceError::InvalidInput(m))
                && m@ == unsupported_coin_message(value)),
    {
        match value {
            0 => Ok(CoinType::Bitcoin),
            1 => Ok(CoinType::BitcoinTestnet),
            2 => Ok(CoinType::Litecoin),
            3 => Ok(CoinType::Dogecoin),
            60 => Ok(CoinType::Ethereum),
            _ => {
                let num = decimal_string(value as u64);
                let msg = concat_str("Unsupported coin type: ", num.as_str());
                Err(GovernanceError::InvalidInput(msg))
            },
        }
    }
}

/// Change chain of a BIP44 path.
#[derive(Debug, Clone, Copy, PartialEq, Eq, Structural)]
pub enum ChangeChain {
    /// External chain (receiving addresses), 0
    External,
    /// Internal chain (change addresses), 1
    Internal,
}

/// The number of a change chain.
pub open spec fn change_number(c: ChangeChain) -> u32 {
    match c {
        ChangeChain::External => 0,
        ChangeChain::Internal => 1,
    }
}

impl ChangeChain {
    /// The chain number (0 external, 1 internal).
    pub fn value(&self) -> (r: u32)
        ensures
            r == change_number(*self),
    {
        match self {
            ChangeChain::External => 0,
            ChangeChain::Internal => 1,
        }
    }
}

/// A BIP44 derivation path.
#[derive(Debug, Clone, Copy, PartialEq, Eq, Structural)]
pub struct Bip44Path {
    /// Purpose (44 for BIP44)
    pub purpose: u32,
    /// Coin type
    pub coin_type: CoinType,
    /// Account index
    pub account: u32,
    /// Change chain
    pub change: ChangeChain,
    /// Address index
    pub address_index: u32,
}

/// The hardened form of a child index.
pub open spec fn hardened(i: u32) -> u32 {
    0x80000000u32 | i
}

/// The child indices that a path derives through: purpose, coin type and
/// account hardened, change and address index not.
pub open spec fn path_indices(p: Bip44Path) -> Seq<u32> {
    seq![
        hardened(p.purpose),
        hardened(coin_type_number(p.coin_type)),
        hardened(p.account),
        change_number(p.change),
        p.address_index,
    ]
}

/// A derivation along a BIP44 path ends five levels below the key it
/// starts from, with the address index as its child number.
pub proof fn lemma_path_derivation_depth(m: XprvModel, p: Bip44Path)
    requires
        m.0 <= 250,
        private_path(m, path_indices(p)) is Ok,
    ensures
        private_path(m, path_indices(p)) matches Ok(c) && c.0 == m.0 + 5 && c.2 == p.address_index,
{
    lemma_private_path_depth(m, path_indices(p));
}

/// The account key watches every address of its account: public
/// derivation from the account's extended public key, by the change chain
/// and then the address index, gives the extended public key of the
/// address that the wallet derives privately. It rests on the agreement of
/// public with private derivation at each of the two steps, which
/// `ExtendedPublicKey::derive_child` ensures for a key whose secret is
/// valid.
pub proof fn lemma_account_xpub_watches(
    m: XprvModel,
    coin: CoinType,
    account: u32,
    change: ChangeChain,
    index: u32,
)
    requires
        index < 0x80000000,
        private_path(m, account_indices(coin, account)) matches Ok(acct) ==> (agrees_with_private(
            xpub_of(acct),
            acct.4,
            change_number(change),
        ) && (private_child(acct, change_number(change)) matches Ok(c1) ==> agrees_with_private(
            xpub_of(c1),
            c1.4,
            index,
        ))),
    ensures
        private_path(m, address_indices(coin, account, change, index)) matches Ok(c) ==> (
        private_path(m, account_indices(coin, account)) matches Ok(acct) && public_child(
            xpub_of(acct),
            change_number(change),
        ) matches Ok(p1) && public_child(p1, index) == Ok::<XpubModel, Seq<char>>(xpub_of(c))),
{
    let idx = address_indices(coin, account, change, index);
    assert(idx.take(3) =~= account_indices(coin, account));
    assert(idx.take(5) =~= idx);
    lemma_private_path_step(m, idx, 3);
    lemma_private_path_step(m, idx, 4);
    assert(change_number(change) < 0x80000000);
}

/// The textual form `m/<purpose>/<coin>'/<account>'/<change>/<index>`.
pub open spec fn path_text(p: Bip44Path) -> Seq<char> {
    "m/"@ + decimal(p.purpose as nat) + "/"@ + decimal(coin_type_number(p.coin_type) as nat) + "'/"@
        + decimal(p.account as nat) + "'/"@ + decimal(change_number(p.change) as nat) + "/"@
        + decimal(p.address_index as nat)
}

/// `s` without a leading `m/`, if it has one.
pub open spec fn strip_master_prefix(s: Seq<char>) -> Seq<char> {
    if s.len() >= 2 && s[0] == 'm' && s[1] == '/' {
        s.skip(2)
    } else {
        s
    }
}


/// The outcome of parsing a BIP44 path from its text: the path, or the
/// message of the `InvalidInput` error.
pub open spec fn parse_path_spec(s: Seq<char>) -> Result<Bip44Path, Seq<char>> {
    let parts = split_seq(strip_master_prefix(s), '/');
    if parts.len() != 5 {
        Err(
            "BIP44 path must have 5 components: purpose'/coin_type'/account'/change/address_index"@,
        )
    } else {
        match parse_u32_spec(trim_end(parts[0], '\'')) {
            None => Err("Invalid purpose"@),
            Some(purpose) => if purpose != 44 {
                Err("Purpose must be 44 for BIP44"@)
            } else {
                match parse_u32_spec(trim_end(parts[1], '\'')) {
                    None => Err("Invalid coin type"@),
                    Some(coin) => match coin_type_of(coin) {
                        None => Err(unsupported_coin_message(coin)),
                        Some(coin_type) => match parse_u32_spec(trim_end(parts[2], '\'')) {
                            None => Err("Invalid account"@),
                            Some(account) => match parse_u32_spec(parts[3]) {
                                None => Err("Invalid change"@),
                                Some(change) => if change > 1 {
                                    Err("Change must be 0 (external) or 1 (internal)"@)
                                } else {
                                    match parse_u32_spec(parts[4]) {
                                        None => Err("Invalid address index"@),
                                        Some(address_index) => Ok(
                                            Bip44Path {
                                                purpose,
                                                coin_type,
                                                account,
                                                change: if change == 0 {
                                                    ChangeChain::External
                                                } else {
                                                    ChangeChain::Internal
                                                },
                                                address_index,
                                            },
                                        ),
                                    }
                                },
                            },
                        },
                    },
                }
            },
        }
    }
}

proof fn lemma_split_no_sep(s: Seq<char>, sep: char)
    requires
        forall|i: int| 0 <= i < s.len() ==> s[i] != sep,
    ensures
        split_seq(s, sep) == seq![s],
    decreases s.len(),
{
    if s.len() == 0 {
        assert(s =~= Seq::<char>::empty());
    } else {
        lemma_split_no_sep(s.drop_last(), sep);
        assert(s[s.len() - 1] != sep);
        assert(s.drop_last().push(s.last()) =~= s);
        assert(seq![s.drop_last()].update(0, s.drop_last().push(s.last())) =~= seq![s]);
    }
}

proof fn lemma_split_nonempty(s: Seq<char>, sep: char)
    ensures
        split_seq(s, sep).len() >= 1,
    decreases s.len(),
{
    if s.len() > 0 {
        lemma_split_nonempty(s.drop_last(), sep);
    }
}

proof fn lemma_split_join(a: Seq<char>, b: Seq<char>, sep: char)
    ensures
        split_seq(a + seq![sep] + b, sep) == split_seq(a, sep) + split_seq(b, sep),
    decreases b.len(),
{
    let x = a + seq![sep] + b;
    if b.len() == 0 {
        assert(x =~= a.push(sep));
        assert(x.drop_last() =~= a);
        assert(split_seq(b, sep) =~= seq![Seq::<char>::empty()]);
        assert(split_seq(a, sep).push(Seq::<char>::empty()) =~= split_seq(a, sep) + split_seq(b, sep));
    } else {
        let b1 = b.drop_last();
        lemma_split_join(a, b1, sep);
        lemma_split_nonempty(b1, sep);
        assert(x.drop_last() =~= a + seq![sep] + b1);
        assert(x.last() == b.last());
        let pa = split_seq(a, sep);
        let pb = split_seq(b1, sep);
        if b.last() == sep {
            assert((pa + pb).push(Seq::<char>::empty()) =~= pa + pb.push(Seq::<char>::empty()));
        } else {
            assert((pa + pb).update((pa + pb).len() - 1, (pa + pb).last().push(b.last())) =~= pa
                + pb.update(pb.len() - 1, pb.last().push(b.last())));
        }
    }
}

proof fn lemma_numeral_no_sep(n: nat, tail: Seq<char>)
    requires
        forall|i: int| 0 <= i < tail.len() ==> tail[i] != '/',
    ensures
        forall|i: int|
            0 <= i < (decimal(n) + tail).len() ==> #[trigger] (decimal(n) + tail)[i] != '/',
{
    lemma_decimal_props(n);
    assert forall|i: int| 0 <= i < (decimal(n) + tail).len() implies #[trigger] (decimal(n)
        + tail)[i] != '/' by {
        if i < decimal(n).len() {
            assert(is_digit(decimal(n)[i]));
        }
    }
}

/// `s` holds no `/`.
spec fn no_slash(s: Seq<char>) -> bool {
    forall|i: int| 0 <= i < s.len() ==> s[i] != '/'
}

/// Five slash-free pieces joined by `/` split back into those pieces.
proof fn lemma_split_five(
    e1: Seq<char>,
    e2: Seq<char>,
    e3: Seq<char>,
    e4: Seq<char>,
    e5: Seq<char>,
)
    requires
        no_slash(e1),
        no_slash(e2),
        no_slash(e3),
        no_slash(e4),
        no_slash(e5),
    ensures
        split_seq(e1 + seq!['/'] + e2 + seq!['/'] + e3 + seq!['/'] + e4 + seq!['/'] + e5, '/')
            == seq![e1, e2, e3, e4, e5],
{
    let sl = seq!['/'];
    let r4 = e4 + sl + e5;
    let r3 = e3 + sl + r4;
    let r2 = e2 + sl + r3;
    assert(e1 + sl + e2 + sl + e3 + sl + e4 + sl + e5 =~= e1 + sl + r2);
    lemma_split_no_sep(e1, '/');
    lemma_split_no_sep(e2, '/');
    lemma_split_no_sep(e3, '/');
    lemma_split_no_sep(e4, '/');
    lemma_split_no_sep(e5, '/');
    lemma_split_join(e4, e5, '/');
    lemma_split_join(e3, r4, '/');
    lemma_split_join(e2, r3, '/');
    lemma_split_join(e1, r2, '/');
    assert(split_seq(e1 + sl + r2, '/') =~= seq![e1, e2, e3, e4, e5]);
}

/// A printed path, without its `m/` prefix.
proof fn lemma_path_text_body(p: Bip44Path)
    ensures
        strip_master_prefix(path_text(p)) == decimal(p.purpose as nat) + seq!['/'] + decimal(
            coin_type_number(p.coin_type) as nat,
        ).push('\'') + seq!['/'] + decimal(p.account as nat).push('\'') + seq!['/'] + decimal(
            change_number(p.change) as nat,
        ) + seq!['/'] + decimal(p.address_index as nat),
{
    reveal_strlit("m/");
    reveal_strlit("/");
    reveal_strlit("'/");
    let d1 = decimal(p.purpose as nat);
    let d2 = decimal(coin_type_number(p.coin_type) as nat);
    let d3 = decimal(p.account as nat);
    let d4 = decimal(change_number(p.change) as nat);
    let d5 = decimal(p.address_index as nat);
    let sl = seq!['/'];
    let body = d1 + sl + d2.push('\'') + sl + d3.push('\'') + sl + d4 + sl + d5;
    assert(path_text(p) =~= seq!['m', '/'] + body);
    assert((seq!['m', '/'] + body).skip(2) =~= body);
}

/// The pieces of a printed path, after its `m/` prefix.
proof fn lemma_path_text_parts(p: Bip44Path)
    ensures
        split_seq(strip_master_prefix(path_text(p)), '/') == seq![
            decimal(p.purpose as nat),
            decimal(coin_type_number(p.coin_type) as nat).push('\''),
            decimal(p.account as nat).push('\''),
            decimal(change_number(p.change) as nat),
            decimal(p.address_index as nat),
        ],
{
    let q = seq!['\''];
    let empty = Seq::<char>::empty();
    let d2 = decimal(coin_type_number(p.coin_type) as nat);
    let d3 = decimal(p.account as nat);
    lemma_numeral_no_sep(p.purpose as nat, empty);
    lemma_numeral_no_sep(coin_type_number(p.coin_type) as nat, q);
    lemma_numeral_no_sep(p.account as nat, q);
    lemma_numeral_no_sep(change_number(p.change) as nat, empty);
    lemma_numeral_no_sep(p.address_index as nat, empty);
    assert(decimal(p.purpose as nat) + empty =~= decimal(p.purpose as nat));
    assert(decimal(change_number(p.change) as nat) + empty =~= decimal(change_number(p.change) as nat));
    assert(decimal(p.address_index as nat) + empty =~= decimal(p.address_index as nat));
    assert(d2 + q =~= d2.push('\''));
    assert(d3 + q =~= d3.push('\''));
    lemma_path_text_body(p);
    lemma_split_five(
        decimal(p.purpose as nat),
        d2.push('\''),
        d3.push('\''),
        decimal(change_number(p.change) as nat),
        decimal(p.address_index as nat),
    );
}

/// Printing a BIP44 path with purpose 44 and parsing the text gives the
/// path back.
pub proof fn lemma_path_text_roundtrip(p: Bip44Path)
    requires
        p.purpose == BIP44_PURPOSE,
    ensures
        parse_path_spec(path_text(p)) == Ok::<Bip44Path, Seq<char>>(p),
{
    lemma_path_text_parts(p);
    lemma_trim_end_decimal(p.purpose as nat, '\'');
    lemma_trim_end_decimal_suffix(coin_type_number(p.coin_type) as nat, '\'');
    lemma_trim_end_decimal_suffix(p.account as nat, '\'');
    lemma_parse_decimal(p.purpose);
    lemma_parse_decimal(coin_type_number(p.coin_type));
    lemma_parse_decimal(p.account);
    lemma_parse_decimal(change_number(p.change));
    lemma_parse_decimal(p.address_index);
    assert(coin_type_of(coin_type_number(p.coin_type)) == Some(p.coin_type));
}

/// `s` without its leading `m/`, if any.
fn strip_master(s: &str) -> (r: String)
    ensures
        r@ == strip_master_prefix(s@),
{
    let n = s.unicode_len();
    if n >= 2 && s.get_char(0) == 'm' && s.get_char(1) == '/' {
        let rest = s.substring_char(2, n);
        string_of(rest)
    } else {
        string_of(s)
    }
}



impl Bip44Path {
    /// A BIP44 path with purpose 44.
    pub fn new(coin_type: CoinType, account: u32, change: ChangeChain, address_index: u32) -> (r:
        Self)
        ensures
            r == (Bip44Path { purpose: BIP44_PURPOSE, coin_type, account, change, address_index }),
    {
        Bip44Path { purpose: BIP44_PURPOSE, coin_type, account, change, address_index }
    }

    /// A Bitcoin mainnet path.
    pub fn bitcoin_mainnet(account: u32, change: ChangeChain, address_index: u32) -> (r: Self)
        ensures
            r == (Bip44Path {
                purpose: BIP44_PURPOSE,
                coin_type: CoinType::Bitcoin,
                account,
                change,
                address_index,
            }),
    {
        Self::new(CoinType::Bitcoin, account, change, address_index)
    }

    /// A Bitcoin testnet path.
    pub fn bitcoin_testnet(account: u32, change: ChangeChain, address_index: u32) -> (r: Self)
        ensures
            r == (Bip44Path {
                purpose: BIP44_PURPOSE,
                coin_type: CoinType::BitcoinTestnet,
                account,
                change,
                address_index,
            }),
    {
        Self::new(CoinType::BitcoinTestnet, account, change, address_index)
    }

    /// Parse a path such as `m/44'/0'/0'/0/0`. The `m/` prefix is optional;
    /// trailing `'` marks are accepted on the first three components.
    pub fn from_string(path_str: &str) -> (r: GovernanceResult<Self>)
        ensures
            parse_path_spec(path_str@) matches Ok(p) ==> r == Ok::<Bip44Path, GovernanceError>(p),
            parse_path_spec(path_str@) matches Err(m) ==> (r matches Err(e) && is_input_error(e, m)),
    {
        let stripped = strip_master(path_str);
        let parts = split_on(stripped.as_str(), '/');
        if parts.len() != 5 {
            return Err(
                GovernanceError::InvalidInput(
                    string_of(
                        "BIP44 path must have 5 components: purpose'/coin_type'/account'/change/address_index",
                    ),
                ),
            );
        }
        let purpose_str = trim_end_char(parts[0].as_str(), '\'');
        let purpose = match parse_u32(purpose_str.as_str()) {
            Some(v) => v,
            None => {
                return Err(GovernanceError::InvalidInput(string_of("Invalid purpose")));
            },
        };
        if purpose != BIP44_PURPOSE {
            return Err(GovernanceError::InvalidInput(string_of("Purpose must be 44 for BIP44")));
        }
        let coin_type_str = trim_end_char(parts[1].as_str(), '\'');
        let coin_type_val = match parse_u32(coin_type_str.as_str()) {
            Some(v) => v,
            None => {
                return Err(GovernanceError::InvalidInput(string_of("Invalid coin type")));
            },
        };
        let coin_type = match CoinType::from_value(coin_type_val) {
            Ok(c) => c,
            Err(e) => {
                return Err(e);
            },
        };
        let account_str = trim_end_char(parts[2].as_str(), '\'');
        let account = match parse_u32(account_str.as_str()) {
            Some(v) => v,
            None => {
                return Err(GovernanceError::InvalidInput(string_of("Invalid account")));
            },
        };
        let change_val = match parse_u32(parts[3].as_str()) {
            Some(v) => v,
            None => {
                return Err(GovernanceError::InvalidInput(string_of("Invalid change")));
            },
        };
        let change = if change_val == 0 {
            ChangeChain::External
        } else if change_val == 1 {
            ChangeChain::Internal
        } else {
            return Err(
                GovernanceError::InvalidInput(
                    string_of("Change must be 0 (external) or 1 (internal)"),
                ),
            );
        };
        let address_index = match parse_u32(parts[4].as_str()) {
            Some(v) => v,
            None => {
                return Err(GovernanceError::InvalidInput(string_of("Invalid address index")));
            },
        };
        Ok(Bip44Path { purpose, coin_type, account, change, address_index })
    }

    /// The textual form, e.g. `m/44/0'/0'/0/0` (the purpose is written
    /// without a hardened mark).
    pub fn to_string(&self) -> (r: String)
        ensures
            r@ == path_text(*self),
    {
        let mut s = string_of("m/");
        s.append(decimal_string(self.purpose as u64).as_str());
        s.append("/");
        s.append(decimal_string(self.coin_type.value() as u64).as_str());
        s.append("'/");
        s.append(decimal_string(self.account as u64).as_str());
        s.append("'/");
        s.append(decimal_string(self.change.value() as u64).as_str());
        s.append("/");
        s.append(decimal_string(self.address_index as u64).as_str());
        s
    }

    /// The child indices of the path, for use with BIP32.
    pub fn to_indices(&self) -> (r: Vec<u32>)
        ensures
            r@ == path_indices(*self),
    {
        let v = vec![
            0x80000000u32 | self.purpose,
            0x80000000u32 | self.coin_type.value(),
            0x80000000u32 | self.account,
            self.change.value(),
            self.address_index,
        ];
        proof {
            assert(v@ =~= path_indices(*self));
        }
        v
    }

    /// Derive the key at this path from a master private key: purpose, coin
    /// type and account hardened, change and address index not.
    pub fn derive(&self, master_private: &ExtendedPrivateKey) -> (r: GovernanceResult<
        (ExtendedPrivateKey, ExtendedPublicKey),
    >)
        requires
            master_private.depth <= 250,
            secret_valid(master_private.private_key@),
        ensures
            private_path(master_private@, path_indices(*self)) matches Ok(c) ==> (r matches Ok(
                (k, p),
            ) && k@ == c && p@ == xpub_of(c) && secret_valid(k.private_key@)),
            private_path(master_private@, path_indices(*self)) matches Err(e) ==> (r matches Err(
                err,
            ) && is_key_error(err, e)),
    {
        let indices = self.to_indices();
        derive_through(master_private, &indices)
    }
}

/// Derive through each index in turn from a private key.
fn derive_through(start: &ExtendedPrivateKey, indices: &Vec<u32>) -> (r: GovernanceResult<
    (ExtendedPrivateKey, ExtendedPublicKey),
>)
    requires
        start.depth + indices@.len() <= 255,
        secret_valid(start.private_key@),
    ensures
        private_path(start@, indices@) matches Ok(c) ==> (r matches Ok((k, p)) && k@ == c && p@
            == xpub_of(c) && secret_valid(k.private_key@)),
        private_path(start@, indices@) matches Err(e) ==> (r matches Err(err) && is_key_error(
            err,
            e,
        )),
{
    let mut current = *start;
    let mut current_pub = start.to_extended_public();
    let mut i: usize = 0;
    proof {
        assert(indices@.take(0) =~= Seq::<u32>::empty());
    }
    while i < indices.len()
        invariant
            i <= indices@.len(),
            start.depth + indices@.len() <= 255,
            current.depth == start.depth + i,
            secret_valid(current.private_key@),
            private_path(start@, indices@.take(i as int)) == Ok::<XprvModel, Seq<char>>(current@),
            current_pub@ == xpub_of(current@),
        decreases indices@.len() - i,
    {
        proof {
            lemma_private_path_step(start@, indices@, i as int);
        }
        match current.derive_child(indices[i]) {
            Ok((new_priv, new_pub)) => {
                current = new_priv;
                current_pub = new_pub;
            },
            Err(e) => {
                proof {
                    lemma_private_path_err(start@, indices@, i + 1);
                }
                return Err(e);
            },
        }
        i = i + 1;
    }
    proof {
        assert(indices@.take(i as int) =~= indices@);
    }
    Ok((current, current_pub))
}

/// The indices of the path `m/44'/coin'/account'/change/index`.
pub open spec fn address_indices(coin_type: CoinType, account: u32, change: ChangeChain, address_index: u32) -> Seq<u32> {
    path_indices(Bip44Path { purpose: 44, coin_type, account, change, address_index })
}

/// The indices of the account level `m/44'/coin'/account'`.
pub open spec fn account_indices(coin_type: CoinType, account: u32) -> Seq<u32> {
    seq![hardened(44), hardened(coin_type_number(coin_type)), hardened(account)]
}

/// BIP44 wallet for managing multiple accounts and addresses.
pub struct Bip44Wallet {
    /// Master extended private key
    master_private: ExtendedPrivateKey,
    /// Coin type
    coin_type: CoinType,
}

impl View for Bip44Wallet {
    type V = (XprvModel, CoinType);

    closed spec fn view(&self) -> (XprvModel, CoinType) {
        (self.master_private@, self.coin_type)
    }
}

impl Bip44Wallet {
    /// The master key is a valid secret key.
    #[verifier::type_invariant]
    spec fn master_valid(self) -> bool {
        secret_valid(self.master_private.private_key@)
    }

    /// Create a new BIP44 wallet from seed.
    pub fn from_seed(seed: &[u8], coin_type: CoinType) -> (r: GovernanceResult<Self>)
        ensures
            master_key(seed@) matches Ok(x) ==> (r matches Ok(w) && w@ == (x, coin_type)),
            (seed@.len() < 16 || seed@.len() > 64) ==> (r matches Err(e) && is_input_error(
                e,
                "Seed must be 16-64 bytes"@,
            )),
            master_key(seed@) matches Err(m) ==> (16 <= seed@.len() <= 64 ==> (r matches Err(e)
                && is_key_error(e, m))),
    {
        let (master_private, _) = match derive_master_key(seed) {
            Ok(x) => x,
            Err(e) => {
                return Err(e);
            },
        };
        Ok(Bip44Wallet { master_private, coin_type })
    }

    /// Create from existing master key.
    pub fn from_master_key(master_private: ExtendedPrivateKey, coin_type: CoinType) -> (r: Self)
        requires
            secret_valid(master_private.private_key@),
        ensures
            r@ == (master_private@, coin_type),
    {
        Bip44Wallet { master_private, coin_type }
    }

    /// Derive key for a specific account, change chain, and address index.
    pub fn derive_address(&self, account: u32, change: ChangeChain, address_index: u32) -> (r:
        GovernanceResult<(ExtendedPrivateKey, ExtendedPublicKey)>)
        requires
            self@.0.0 <= 250,
        ensures
            private_path(self@.0, address_indices(self@.1, account, change, address_index)) matches Ok(c)
                ==> (r matches Ok((k, p)) && k@ == c && p@ == xpub_of(c)),
            private_path(self@.0, address_indices(self@.1, account, change, address_index)) matches Err(e)
                ==> (r matches Err(err) && is_key_error(err, e)),
    {
        proof {
            use_type_invariant(self);
        }
        let path = Bip44Path::new(self.coin_type, account, change, address_index);
        path.derive(&self.master_private)
    }

    /// Get receiving address (external chain) for account.
    pub fn receiving_address(&self, account: u32, address_index: u32) -> (r: GovernanceResult<
        (ExtendedPrivateKey, ExtendedPublicKey),
    >)
        requires
            self@.0.0 <= 250,
        ensures
            private_path(self@.0, address_indices(self@.1, account, ChangeChain::External, address_index))
                matches Ok(c) ==> (r matches Ok((k, p)) && k@ == c && p@ == xpub_of(c)),
            private_path(self@.0, address_indices(self@.1, account, ChangeChain::External, address_index))
                matches Err(e) ==> (r matches Err(err) && is_key_error(err, e)),
    {
        self.derive_address(account, ChangeChain::External, address_index)
    }

    /// Get change address (internal chain) for account.
    pub fn change_address(&self, account: u32, address_index: u32) -> (r: GovernanceResult<
        (ExtendedPrivateKey, ExtendedPublicKey),
    >)
        requires
            self@.0.0 <= 250,
        ensures
            private_path(self@.0, address_indices(self@.1, account, ChangeChain::Internal, address_index))
                matches Ok(c) ==> (r matches Ok((k, p)) && k@ == c && p@ == xpub_of(c)),
            private_path(self@.0, address_indices(self@.1, account, ChangeChain::Internal, address_index))
                matches Err(e) ==> (r matches Err(err) && is_key_error(err, e)),
    {
        self.derive_address(account, ChangeChain::Internal, address_index)
    }

    /// Get account extended public key (can be shared to watch addresses):
    /// the key at `m/44'/coin'/account'`, the public key of a valid secret,
    /// so that public derivation from it agrees with private derivation.
    pub fn account_xpub(&self, account: u32) -> (r: GovernanceResult<ExtendedPublicKey>)
        requires
            self@.0.0 <= 252,
        ensures
            private_path(self@.0, account_indices(self@.1, account)) matches Ok(c) ==> (r matches Ok(
                p,
            ) && p@ == xpub_of(c) && secret_valid(c.4)),
            private_path(self@.0, account_indices(self@.1, account)) matches Err(e) ==> (r matches Err(
                err,
            ) && is_key_error(err, e)),
    {
        proof {
            use_type_invariant(self);
        }
        let path_indices = vec![
            0x80000000u32 | BIP44_PURPOSE,
            0x80000000u32 | self.coin_type.value(),
            0x80000000u32 | account,
        ];
        proof {
            assert(path_indices@ =~= account_indices(self.coin_type, account));
        }
        match derive_through(&self.master_private, &path_indices) {
            Ok((current, _)) => Ok(current.to_extended_public()),
            Err(e) => Err(e),
        }
    }
}

} // verus!
