use vstd::prelude::*;
use crate::book::{AddressEntry, Category};

verus! {

broadcast use vstd::seq::group_seq_axioms, vstd::std_specs::vec::group_vec_axioms;

/// The known tokens of the main network.
pub fn tokens() -> (r: Vec<AddressEntry>)
    ensures
        r@.len() == 8,
        r@[0]@.symbol == "usdt"@ && r@[0]@.address == "0xdAC17F958D2ee523a2206206994597C13D831ec7"@,
        r@[1]@.symbol == "usdc"@ && r@[1]@.address == "0xA0b86991c6218b36c1d19D4a2e9Eb0cE3606eB48"@,
        r@[2]@.symbol == "busd"@ && r@[2]@.address == "0x4Fabb145d64652a948d72533023f6E7A623C7C53"@,
        r@[3]@.symbol == "weth"@ && r@[3]@.address == "0xc02aaa39b223fe8d0a0e5c4f27ead9083c756cc2"@,
        r@[4]@.symbol == "wbnb"@ && r@[4]@.address == "0x418D75f65a02b3D53B2418FB8E1fe493759c7605"@,
        r@[5]@.symbol == "bnb"@ && r@[5]@.address == "0xB8c77482e45F1F44dE1745F52C74426C631bDD52"@,
        r@[6]@.symbol == "matic"@ && r@[6]@.address == "0x7D1AfA7B718fb893dB30A3aBc0Cfc608AaCfeBB0"@,
        r@[7]@.symbol == "shib"@ && r@[7]@.address == "0x95aD61b0a150d79219dCF64E1E6Cc01f0B64C4cE"@,
        forall|i: int| 0 <= i < 8 ==> (#[trigger] r@[i])@.network == "eth"@ && r@[i]@.category == Category::Token,
{
    let mut v: Vec<AddressEntry> = Vec::new();
    v.push(AddressEntry {
        network: "eth".to_owned(),
        category: Category::Token,
        symbol: "usdt".to_owned(),
        address: "0xdAC17F958D2ee523a2206206994597C13D831ec7".to_owned(),
    });
    v.push(AddressEntry {
        network: "eth".to_owned(),
        category: Category::Token,
        symbol: "usdc".to_owned(),
        address: "0xA0b86991c6218b36c1d19D4a2e9Eb0cE3606eB48".to_owned(),
    });
    v.push(AddressEntry {
        network: "eth".to_owned(),
        category: Category::Token,
        symbol: "busd".to_owned(),
        address: "0x4Fabb145d64652a948d72533023f6E7A623C7C53".to_owned(),
    });
    v.push(AddressEntry {
        network: "eth".to_owned(),
        category: Category::Token,
        symbol: "weth".to_owned(),
        address: "0xc02aaa39b223fe8d0a0e5c4f27ead9083c756cc2".to_owned(),
    });
    v.push(AddressEntry {
        network: "eth".to_owned(),
        category: Category::Token,
        symbol: "wbnb".to_owned(),
        address: "0x418D75f65a02b3D53B2418FB8E1fe493759c7605".to_owned(),
    });
    v.push(AddressEntry {
        network: "eth".to_owned(),
        category: Category::Token,
        symbol: "bnb".to_owned(),
        address: "0xB8c77482e45F1F44dE1745F52C74426C631bDD52".to_owned(),
    });
    v.push(AddressEntry {
        network: "eth".to_owned(),
        category: Category::Token,
        symbol: "matic".to_owned(),
        address: "0x7D1AfA7B718fb893dB30A3aBc0Cfc608AaCfeBB0".to_owned(),
    });
    v.push(AddressEntry {
        network: "eth".to_owned(),
        category: Category::Token,
        symbol: "shib".to_owned(),
        address: "0x95aD61b0a150d79219dCF64E1E6Cc01f0B64C4cE".to_owned(),
    });
    v
}

/// The known first-generation exchange contracts, one per token.
pub fn uniswap_v1_dexes() -> (r: Vec<AddressEntry>)
    ensures
        r@.len() == 6,
        r@[0]@.symbol == "usdt"@ && r@[0]@.address == "0xc8313c965C47D1E0B5cDCD757B210356AD0e400C"@,
        r@[1]@.symbol == "usdc"@ && r@[1]@.address == "0x97deC872013f6B5fB443861090ad931542878126"@,
        r@[2]@.symbol == "busd"@ && r@[2]@.address == "0x25C610eeE8f59768c26567c388986Aab3467a3E3"@,
        r@[3]@.symbol == "bnb"@ && r@[3]@.address == "0x255e60c9d597dCAA66006A904eD36424F7B26286"@,
        r@[4]@.symbol == "matic"@ && r@[4]@.address == "0x9a7A75E66B325a3BD46973B2b57c9b8d9D26a621"@,
        r@[5]@.symbol == "shib"@ && r@[5]@.address == "0x5D9b6020EeF51fCB09390Bb4E07591f73c805065"@,
        forall|i: int| 0 <= i < 6 ==> (#[trigger] r@[i])@.network == "eth"@ && r@[i]@.category == Category::Exchange,
{
    let mut v: Vec<AddressEntry> = Vec::new();
    v.push(AddressEntry {
        network: "eth".to_owned(),
        category: Category::Exchange,
        symbol: "usdt".to_owned(),
        address: "0xc8313c965C47D1E0B5cDCD757B210356AD0e400C".to_owned(),
    });
    v.push(AddressEntry {
        network: "eth".to_owned(),
        category: Category::Exchange,
        symbol: "usdc".to_owned(),
        address: "0x97deC872013f6B5fB443861090ad931542878126".to_owned(),
    });
    v.push(AddressEntry {
        network: "eth".to_owned(),
        category: Category::Exchange,
        symbol: "busd".to_owned(),
        address: "0x25C610eeE8f59768c26567c388986Aab3467a3E3".to_owned(),
    });
    v.push(AddressEntry {
        network: "eth".to_owned(),
        category: Category::Exchange,
        symbol: "bnb".to_owned(),
        address: "0x255e60c9d597dCAA66006A904eD36424F7B26286".to_owned(),
    });
    v.push(AddressEntry {
        network: "eth".to_owned(),
        category: Category::Exchange,
        symbol: "matic".to_owned(),
        address: "0x9a7A75E66B325a3BD46973B2b57c9b8d9D26a621".to_owned(),
    });
    v.push(AddressEntry {
        network: "eth".to_owned(),
        category: Category::Exchange,
        symbol: "shib".to_owned(),
        address: "0x5D9b6020EeF51fCB09390Bb4E07591f73c805065".to_owned(),
    });
    v
}

/// The address of the universal router contract.
pub fn uniswap_universal_router() -> (r: String)
    ensures
        r@ == "0xEf1c6E67703c7BD7107eed8303Fbe6EC2554BF6B"@,
{
    "0xEf1c6E67703c7BD7107eed8303Fbe6EC2554BF6B".to_owned()
}

/// The address of the smart router contract.
pub fn pancakeswap_smart_router() -> (r: String)
    ensures
        r@ == "0x13f4EA83D0bd40E75C8222255bc855a974568Dd4"@,
{
    "0x13f4EA83D0bd40E75C8222255bc855a974568Dd4".to_owned()
}

} // verus!
