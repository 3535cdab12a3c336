//! Return profiles: the asset class a profile is labelled with.
use vstd::prelude::*;

use crate::text::same_text;

verus! {

#[derive(Debug, Clone, Copy, PartialEq, Eq, Structural)]
pub enum AssetClass {
    UsEquity,
    UsSmallCap,
    GlobalEquity,
    IntlEquity,
    Bonds,
    Reit,
    Cash,
    Commodity,
    Crypto,
    Balanced,
}

pub open spec fn class_name(c: AssetClass) -> Seq<char> {
    match c {
        AssetClass::UsEquity => "UsEquity"@,
        AssetClass::UsSmallCap => "UsSmallCap"@,
        AssetClass::GlobalEquity => "GlobalEquity"@,
        AssetClass::IntlEquity => "IntlEquity"@,
        AssetClass::Bonds => "Bonds"@,
        AssetClass::Reit => "Reit"@,
        AssetClass::Cash => "Cash"@,
        AssetClass::Commodity => "Commodity"@,
        AssetClass::Crypto => "Crypto"@,
        AssetClass::Balanced => "Balanced"@,
    }
}

/// The class whose name is `text`, if any.
pub open spec fn class_named(text: Seq<char>) -> Option<AssetClass> {
    if exists|c: AssetClass| class_name(c) == text {
        Some(choose|c: AssetClass| class_name(c) == text)
    } else {
        None
    }
}

proof fn lemma_names_distinct(a: AssetClass, b: AssetClass)
    ensures
        class_name(a) == class_name(b) ==> a == b,
{
    reveal_strlit("UsEquity");
    reveal_strlit("UsSmallCap");
    reveal_strlit("GlobalEquity");
    reveal_strlit("IntlEquity");
    reveal_strlit("Bonds");
    reveal_strlit("Reit");
    reveal_strlit("Cash");
    reveal_strlit("Commodity");
    reveal_strlit("Crypto");
    reveal_strlit("Balanced");
    if class_name(a) == class_name(b) {
        assert(class_name(a).len() == class_name(b).len());
        assert(class_name(a)[0] == class_name(b)[0]);
        assert(class_name(a)[1] == class_name(b)[1]);
    }
}

impl AssetClass {
    /// Stored as its own name, so the column reads as itself in a query.
    pub fn as_str(self) -> (r: &'static str)
        ensures
            r@ == class_name(self),
    {
        match self {
            AssetClass::UsEquity => "UsEquity",
            AssetClass::UsSmallCap => "UsSmallCap",
            AssetClass::GlobalEquity => "GlobalEquity",
            AssetClass::IntlEquity => "IntlEquity",
            AssetClass::Bonds => "Bonds",
            AssetClass::Reit => "Reit",
            AssetClass::Cash => "Cash",
            AssetClass::Commodity => "Commodity",
            AssetClass::Crypto => "Crypto",
            AssetClass::Balanced => "Balanced",
        }
    }

    /// Text that names no class reads as none rather than as an error: a
    /// column written by a newer build leaves an older one working.
    pub fn parse(text: &str) -> (r: Option<Self>)
        ensures
            r == class_named(text@),
            match r {
                Some(c) => class_name(c) == text@,
                None => forall|c: AssetClass| class_name(c) != text@,
            },
    {
        let all = [
            AssetClass::UsEquity,
            AssetClass::UsSmallCap,
            AssetClass::GlobalEquity,
            AssetClass::IntlEquity,
            AssetClass::Bonds,
            AssetClass::Reit,
            AssetClass::Cash,
            AssetClass::Commodity,
            AssetClass::Crypto,
            AssetClass::Balanced,
        ];
        let mut i: usize = 0;
        while i < 10
            invariant
                i <= 10,
                all@ == seq![
                    AssetClass::UsEquity,
                    AssetClass::UsSmallCap,
                    AssetClass::GlobalEquity,
                    AssetClass::IntlEquity,
                    AssetClass::Bonds,
                    AssetClass::Reit,
                    AssetClass::Cash,
                    AssetClass::Commodity,
                    AssetClass::Crypto,
                    AssetClass::Balanced,
                ],
                forall|j: int| 0 <= j < i ==> class_name(#[trigger] all@[j]) != text@,
            decreases 10 - i,
        {
            let c = all[i];
            if same_text(c.as_str(), text) {
                proof {
                    let d = choose|d: AssetClass| class_name(d) == text@;
                    lemma_names_distinct(c, d);
                }
                return Some(c);
            }
            i = i + 1;
        }
        proof {
            assert forall|c: AssetClass| class_name(c) != text@ by {
                match c {
                    AssetClass::UsEquity => assert(all@[0] == c),
                    AssetClass::UsSmallCap => assert(all@[1] == c),
                    AssetClass::GlobalEquity => assert(all@[2] == c),
                    AssetClass::IntlEquity => assert(all@[3] == c),
                    AssetClass::Bonds => assert(all@[4] == c),
                    AssetClass::Reit => assert(all@[5] == c),
                    AssetClass::Cash => assert(all@[6] == c),
                    AssetClass::Commodity => assert(all@[7] == c),
                    AssetClass::Crypto => assert(all@[8] == c),
                    AssetClass::Balanced => assert(all@[9] == c),
                }
            }
        }
        None
    }
}

/// Every class reads back as itself from its stored name.
pub proof fn asset_class_round_trip(c: AssetClass)
    ensures
        class_named(class_name(c)) == Some(c),
{
    let d = choose|d: AssetClass| class_name(d) == class_name(c);
    lemma_names_distinct(c, d);
}

} // verus!
