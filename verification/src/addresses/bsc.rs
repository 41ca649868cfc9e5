use vstd::prelude::*;
use crate::book::{AddressEntry, Category};

verus! {

broadcast use vstd::seq::group_seq_axioms, vstd::std_specs::vec::group_vec_axioms;

/// The known tokens of the side network.
pub fn tokens() -> (r: Vec<AddressEntry>)
    ensures
        r@.len() == 7,
        r@[0]@.symbol == "usdt"@ && r@[0]@.address == "0x55d398326f99059ff775485246999027b3197955"@,
        r@[1]@.symbol == "usdc"@ && r@[1]@.address == "0x8ac76a51cc950d9822d68b83fe1ad97b32cd580d"@,
        r@[2]@.symbol == "busd"@ && r@[2]@.address == "0xe9e7cea3dedca5984780bafc599bd69add087d56"@,
        r@[3]@.symbol == "wbnb"@ && r@[3]@.address == "0xbb4CdB9CBd36B01bD1cBaEBF2De08d9173bc095c"@,
        r@[4]@.symbol == "weth"@ && r@[4]@.address == "0x4DB5a66E937A9F4473fA95b1cAF1d1E1D62E29EA"@,
        r@[5]@.symbol == "bep20eth"@ && r@[5]@.address == "0x2170ed0880ac9a755fd29b2688956bd959f933f8"@,
        r@[6]@.symbol == "matic"@ && r@[6]@.address == "0xcc42724c6683b7e57334c4e856f4c9965ed682bd"@,
        forall|i: int| 0 <= i < 7 ==> (#[trigger] r@[i])@.network == "bsc"@ && r@[i]@.category == Category::Token,
{
    let mut v: Vec<AddressEntry> = Vec::new();
    v.push(AddressEntry {
        network: "bsc".to_owned(),
        category: Category::Token,
        symbol: "usdt".to_owned(),
        address: "0x55d398326f99059ff775485246999027b3197955".to_owned(),
    });
    v.push(AddressEntry {
        network: "bsc".to_owned(),
        category: Category::Token,
        symbol: "usdc".to_owned(),
        address: "0x8ac76a51cc950d9822d68b83fe1ad97b32cd580d".to_owned(),
    });
    v.push(AddressEntry {
        network: "bsc".to_owned(),
        category: Category::Token,
        symbol: "busd".to_owned(),
        address: "0xe9e7cea3dedca5984780bafc599bd69add087d56".to_owned(),
    });
    v.push(AddressEntry {
        network: "bsc".to_owned(),
        category: Category::Token,
        symbol: "wbnb".to_owned(),
        address: "0xbb4CdB9CBd36B01bD1cBaEBF2De08d9173bc095c".to_owned(),
    });
    v.push(AddressEntry {
        network: "bsc".to_owned(),
        category: Category::Token,
        symbol: "weth".to_owned(),
        address: "0x4DB5a66E937A9F4473fA95b1cAF1d1E1D62E29EA".to_owned(),
    });
    v.push(AddressEntry {
        network: "bsc".to_owned(),
        category: Category::Token,
        symbol: "bep20eth".to_owned(),
        address: "0x2170ed0880ac9a755fd29b2688956bd959f933f8".to_owned(),
    });
    v.push(AddressEntry {
        network: "bsc".to_owned(),
        category: Category::Token,
        symbol: "matic".to_owned(),
        address: "0xcc42724c6683b7e57334c4e856f4c9965ed682bd".to_owned(),
    });
    v
}

/// The address of the smart router contract.
pub fn pancakeswap_smart_router() -> (r: String)
    ensures
        r@ == "0x13f4EA83D0bd40E75C8222255bc855a974568Dd4"@,
{
    "0x13f4EA83D0bd40E75C8222255bc855a974568Dd4".to_owned()
}

} // verus!
