//! Names that the command-line front end hands out and its default servers.
use vstd::prelude::*;
use vstd::string::*;
use crate::model::AssetDefinition;

verus! {

/// The decimal digits of `n`, most significant first.
pub open spec fn decimal(n: nat) -> Seq<char>
    decreases n,
{
    if n < 10 {
        seq![digit_char(n)]
    } else {
        decimal(n / 10) + seq![digit_char(n % 10)]
    }
}

pub open spec fn digit_char(d: nat) -> char {
    if d == 0 {
        '0'
    } else if d == 1 {
        '1'
    } else if d == 2 {
        '2'
    } else if d == 3 {
        '3'
    } else if d == 4 {
        '4'
    } else if d == 5 {
        '5'
    } else if d == 6 {
        '6'
    } else if d == 7 {
        '7'
    } else if d == 8 {
        '8'
    } else {
        '9'
    }
}

/// The `i`-th name of a sequence: the base itself first, then
/// `base`, `delim` and the count of earlier suffixed names.
pub open spec fn fresh_name(base: Seq<char>, delim: Seq<char>, i: nat) -> Seq<char> {
    if i == 0 {
        base
    } else {
        base + delim + decimal((i - 1) as nat)
    }
}

/// `count` spaces.
pub open spec fn spaces(count: nat) -> Seq<char>
    decreases count,
{
    if count == 0 {
        Seq::empty()
    } else {
        spaces((count - 1) as nat).push(' ')
    }
}

fn digit_str(d: u64) -> (r: &'static str)
    requires
        d < 10,
    ensures
        r@ == seq![digit_char(d as nat)],
{
    if d == 0 {
        proof { reveal_strlit("0"); }
        "0"
    } else if d == 1 {
        proof { reveal_strlit("1"); }
        "1"
    } else if d == 2 {
        proof { reveal_strlit("2"); }
        "2"
    } else if d == 3 {
        proof { reveal_strlit("3"); }
        "3"
    } else if d == 4 {
        proof { reveal_strlit("4"); }
        "4"
    } else if d == 5 {
        proof { reveal_strlit("5"); }
        "5"
    } else if d == 6 {
        proof { reveal_strlit("6"); }
        "6"
    } else if d == 7 {
        proof { reveal_strlit("7"); }
        "7"
    } else if d == 8 {
        proof { reveal_strlit("8"); }
        "8"
    } else {
        proof { reveal_strlit("9"); }
        "9"
    }
}

/// Appends the decimal digits of `n` to `s`.
pub fn append_decimal(s: &mut String, n: u64)
    ensures
        final(s)@ == old(s)@ + decimal(n as nat),
    decreases n,
{
    if n >= 10 {
        append_decimal(s, n / 10);
    }
    let d = digit_str(n % 10);
    s.append(d);
    proof {
        assert(final(s)@ =~= old(s)@ + decimal(n as nat));
    }
}

/// Hands out names `base`, then `base` + `delim` + 0, `base` + `delim` + 1, ...
pub struct FreshNamer {
    base: String,
    i: u64,
    delim: String,
}

impl FreshNamer {
    pub closed spec fn base(&self) -> Seq<char> {
        self.base@
    }

    pub closed spec fn delim(&self) -> Seq<char> {
        self.delim@
    }

    /// How many names were handed out so far.
    pub closed spec fn count(&self) -> nat {
        self.i as nat
    }

    pub fn new(base: String, delim: String) -> (r: Self)
        ensures
            r.base() == base@,
            r.delim() == delim@,
            r.count() == 0,
    {
        FreshNamer { base, i: 0, delim }
    }

    /// The next name; there is always one.
    pub fn next(&mut self) -> (r: Option<String>)
        requires
            old(self).count() < u64::MAX,
        ensures
            r.is_some(),
            r.unwrap()@ == fresh_name(old(self).base(), old(self).delim(), old(self).count()),
            final(self).base() == old(self).base(),
            final(self).delim() == old(self).delim(),
            final(self).count() == old(self).count() + 1,
    {
        let ret = if self.i == 0 {
            self.base.clone()
        } else {
            let mut s = self.base.clone();
            s.append(self.delim.as_str());
            append_decimal(&mut s, self.i - 1);
            s
        };
        self.i = self.i + 1;
        Some(ret)
    }
}

/// The submission server used when none is configured.
pub fn default_sub_server() -> (r: String)
    ensures
        r@ == "https://testnet.findora.org:8669"@,
{
    String::from_str("https://testnet.findora.org:8669")
}

/// The ledger query server used when none is configured.
pub fn default_ledger_server() -> (r: String)
    ensures
        r@ == "https://testnet.findora.org:8668"@,
{
    String::from_str("https://testnet.findora.org:8668")
}

/// Indentation of `indent_level` spaces.
pub fn indent_of(indent_level: u64) -> (r: String)
    ensures
        r@ == spaces(indent_level as nat),
{
    let mut ret = String::new();
    let mut k: u64 = 0;
    while k < indent_level
        invariant
            k <= indent_level,
            ret@ == spaces(k as nat),
        decreases indent_level - k,
    {
        ret.append(" ");
        proof {
            reveal_strlit(" ");
            assert(ret@ =~= spaces((k + 1) as nat));
        }
        k = k + 1;
    }
    ret
}

/// Local nickname of an asset type.
#[derive(Clone, Debug, PartialEq, Eq, Hash, Default, PartialOrd, Ord)]
pub struct AssetTypeName(pub String);

/// Local nickname of a key pair.
#[derive(Clone, Debug, PartialEq, Eq, Hash, Default, PartialOrd, Ord)]
pub struct KeypairName(pub String);

/// Local nickname of a public key.
#[derive(Clone, Debug, PartialEq, Eq, Hash, Default, PartialOrd, Ord)]
pub struct PubkeyName(pub String);

/// Local nickname of a built transaction.
#[derive(Clone, Debug, PartialEq, Eq, Hash, Default, PartialOrd, Ord)]
pub struct TxnName(pub String);

/// Local nickname of a transaction under construction.
#[derive(Clone, Debug, PartialEq, Eq, Hash, Default, PartialOrd, Ord)]
pub struct TxnBuilderName(pub String);

/// Local nickname of a transaction output.
#[derive(Clone, Debug, PartialEq, Eq, Hash, Default, PartialOrd, Ord)]
pub struct TxoName(pub String);

/// A locally known asset type: its definition, the nickname of its issuer,
/// and the next issuance sequence number to use.
#[derive(Clone, Debug, PartialEq, Eq)]
pub struct AssetTypeEntry {
    pub asset: AssetDefinition,
    pub issuer_nick: Option<PubkeyName>,
    pub issue_seq_num: u64,
}

} // verus!
