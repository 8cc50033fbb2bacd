//! The two tables by which a selector finds its function.
use crate::abi::{FunctionSignature, ParamKind};
use crate::selector::{key_of, selector_bytes, selector_key};
use std::collections::HashMap;
use vstd::prelude::*;

verus! {

/// The two kinds of virtual contract.
#[derive(Clone, Copy, Debug, PartialEq, Eq, Structural)]
pub enum Surface {
    /// The contract of one fungible token.
    Fungible,
    /// The one registry through which non-fungible tokens are reached.
    Proxy,
}

/// The functions that are emulated.
#[derive(Clone, Copy, Debug, PartialEq, Eq, Structural)]
pub enum Operation {
    Name,
    Symbol,
    Decimals,
    TotalSupply,
    Allowance,
    BalanceOf,
    CreatorId,
    CreatorAddress,
    SerialId,
    ContentHash,
    TokenUri,
    NftBalanceOf,
    OwnerOf,
    GetApproved,
}

/// Whether an operation reads its first argument.
pub open spec fn reads_argument(operation: Operation) -> bool {
    match operation {
        Operation::Name
        | Operation::Symbol
        | Operation::Decimals
        | Operation::TotalSupply
        | Operation::Allowance => false,
        _ => true,
    }
}

/// The operation that a name stands for on the fungible surface.
pub open spec fn fungible_operation(name: Seq<char>) -> Option<Operation> {
    if name == "name"@ {
        Some(Operation::Name)
    } else if name == "symbol"@ {
        Some(Operation::Symbol)
    } else if name == "decimals"@ {
        Some(Operation::Decimals)
    } else if name == "totalSupply"@ {
        Some(Operation::TotalSupply)
    } else if name == "allowance"@ {
        Some(Operation::Allowance)
    } else if name == "balanceOf"@ {
        Some(Operation::BalanceOf)
    } else {
        None
    }
}

/// The operation that a name stands for on the registry proxy.
pub open spec fn proxy_operation(name: Seq<char>) -> Option<Operation> {
    if name == "creatorId"@ {
        Some(Operation::CreatorId)
    } else if name == "creatorAddress"@ {
        Some(Operation::CreatorAddress)
    } else if name == "serialId"@ {
        Some(Operation::SerialId)
    } else if name == "contentHash"@ {
        Some(Operation::ContentHash)
    } else if name == "tokenURI"@ {
        Some(Operation::TokenUri)
    } else if name == "balanceOf"@ {
        Some(Operation::NftBalanceOf)
    } else if name == "ownerOf"@ {
        Some(Operation::OwnerOf)
    } else if name == "getApproved"@ {
        Some(Operation::GetApproved)
    } else {
        None
    }
}

/// The operation that a function of a surface is emulated by, if it is
/// emulated: its name must be one of the surface's, and it must declare the
/// argument that its operation reads.
pub open spec fn operation_of(name: Seq<char>, arity: nat, surface: Surface) -> Option<Operation> {
    let named = match surface {
        Surface::Fungible => fungible_operation(name),
        Surface::Proxy => proxy_operation(name),
    };
    match named {
        Some(operation) => if reads_argument(operation) && arity == 0 {
            None
        } else {
            Some(operation)
        },
        None => None,
    }
}

fn is_named(name: &String, literal: &str) -> (same: bool)
    ensures
        same == (name@ == literal@),
{
    let other = String::from_str(literal);
    *name == other
}

fn reads_its_argument(operation: Operation) -> (reads: bool)
    ensures
        reads == reads_argument(operation),
{
    match operation {
        Operation::Name
        | Operation::Symbol
        | Operation::Decimals
        | Operation::TotalSupply
        | Operation::Allowance => false,
        _ => true,
    }
}

impl FunctionSignature {
    /// The operation by which this function is emulated on `surface`, if it is.
    pub fn operation(&self, surface: Surface) -> (found: Option<Operation>)
        ensures
            found == operation_of(self.name@, self.inputs@.len(), surface),
    {
        let name = &self.name;
        let named = match surface {
            Surface::Fungible => {
                if is_named(name, "name") {
                    Some(Operation::Name)
                } else if is_named(name, "symbol") {
                    Some(Operation::Symbol)
                } else if is_named(name, "decimals") {
                    Some(Operation::Decimals)
                } else if is_named(name, "totalSupply") {
                    Some(Operation::TotalSupply)
                } else if is_named(name, "allowance") {
                    Some(Operation::Allowance)
                } else if is_named(name, "balanceOf") {
                    Some(Operation::BalanceOf)
                } else {
                    None
                }
            },
            Surface::Proxy => {
                if is_named(name, "creatorId") {
                    Some(Operation::CreatorId)
                } else if is_named(name, "creatorAddress") {
                    Some(Operation::CreatorAddress)
                } else if is_named(name, "serialId") {
                    Some(Operation::SerialId)
                } else if is_named(name, "contentHash") {
                    Some(Operation::ContentHash)
                } else if is_named(name, "tokenURI") {
                    Some(Operation::TokenUri)
                } else if is_named(name, "balanceOf") {
                    Some(Operation::NftBalanceOf)
                } else if is_named(name, "ownerOf") {
                    Some(Operation::OwnerOf)
                } else if is_named(name, "getApproved") {
                    Some(Operation::GetApproved)
                } else {
                    None
                }
            },
        };
        match named {
            Some(operation) => if reads_its_argument(operation) && self.inputs.len() == 0 {
                None
            } else {
                Some(operation)
            },
            None => None,
        }
    }
}

/// A function as a table holds it: with the operation that emulates it.
#[derive(Clone, Debug)]
pub struct TableEntry {
    pub function: FunctionSignature,
    pub operation: Operation,
}

/// What a table entry says, apart from how it is stored.
pub ghost struct EntryView {
    pub name: Seq<char>,
    pub inputs: Seq<ParamKind>,
    pub operation: Operation,
}

impl View for TableEntry {
    type V = EntryView;

    open spec fn view(&self) -> EntryView {
        EntryView { name: self.function.name@, inputs: self.function.inputs@, operation: self.operation }
    }
}

/// What a table says: each key with the view of its entry.
pub open spec fn table_view(table: Map<u32, TableEntry>) -> Map<u32, EntryView> {
    Map::new(|key: u32| table.contains_key(key), |key: u32| table[key]@)
}

/// Whether every function of `functions` is emulated on `surface`.
pub open spec fn all_emulated(functions: Seq<FunctionSignature>, surface: Surface) -> bool {
    forall|i: int|
        0 <= i < functions.len() ==> operation_of(
            (#[trigger] functions[i]).name@,
            functions[i].inputs@.len(),
            surface,
        ) is Some
}

/// The entry under which a function of `surface` is filed.
pub open spec fn entry_of(function: FunctionSignature, surface: Surface) -> EntryView {
    EntryView {
        name: function.name@,
        inputs: function.inputs@,
        operation: operation_of(function.name@, function.inputs@.len(), surface).unwrap(),
    }
}

/// The key under which a function is filed.
pub open spec fn key_of_function(function: FunctionSignature) -> u32 {
    selector_key(selector_bytes(function.name@, function.inputs@))
}

/// The table that results from filing `functions` in order, each under its
/// key. Where two have one key, the later one stays.
pub open spec fn table_of(functions: Seq<FunctionSignature>, surface: Surface) -> Map<u32, EntryView>
    decreases functions.len(),
{
    if functions.len() == 0 {
        Map::empty()
    } else {
        table_of(functions.drop_last(), surface).insert(
            key_of_function(functions.last()),
            entry_of(functions.last(), surface),
        )
    }
}

/// Whether each entry of a table is filed under the key of its own
/// selector, with the operation that emulates it on `surface`.
pub open spec fn table_sound(table: Map<u32, EntryView>, surface: Surface) -> bool {
    forall|key: u32| #[trigger]
        table.contains_key(key) ==> {
            &&& key == selector_key(selector_bytes(table[key].name, table[key].inputs))
            &&& operation_of(table[key].name, table[key].inputs.len(), surface) == Some(
                table[key].operation,
            )
        }
}

/// Every entry of a table stands under the key of its own selector: the
/// first four bytes of the digest of its canonical text, read as a number.
pub proof fn lemma_table_keys_are_selectors(functions: Seq<FunctionSignature>, surface: Surface)
    ensures
        forall|key: u32| #[trigger]
            table_of(functions, surface).contains_key(key) ==> key == selector_key(
                selector_bytes(
                    table_of(functions, surface)[key].name,
                    table_of(functions, surface)[key].inputs,
                ),
            ),
    decreases functions.len(),
{
    if functions.len() > 0 {
        lemma_table_keys_are_selectors(functions.drop_last(), surface);
    }
}

/// Every table that was made by filing emulated functions is sound.
pub proof fn lemma_table_of_sound(functions: Seq<FunctionSignature>, surface: Surface)
    requires
        all_emulated(functions, surface),
    ensures
        table_sound(table_of(functions, surface), surface),
    decreases functions.len(),
{
    if functions.len() > 0 {
        let earlier = functions.drop_last();
        assert forall|i: int| 0 <= i < earlier.len() implies operation_of(
            (#[trigger] earlier[i]).name@,
            earlier[i].inputs@.len(),
            surface,
        ) is Some by {
            assert(earlier[i] == functions[i]);
        }
        lemma_table_of_sound(earlier, surface);
        let last = functions.last();
        assert(operation_of(last.name@, last.inputs@.len(), surface) is Some);
    }
}

/// Files each function under the key of its selector.
pub fn gen_hashmap(functions: Vec<FunctionSignature>, surface: Surface) -> (table: HashMap<
    u32,
    TableEntry,
>)
    requires
        all_emulated(functions@, surface),
    ensures
        table_view(table@) == table_of(functions@, surface),
        table_sound(table_view(table@), surface),
{
    broadcast use vstd::std_specs::hash::group_hash_axioms;

    let ghost filed = functions@;
    let mut table: HashMap<u32, TableEntry> = HashMap::new();
    assert(table_view(table@) =~= table_of(filed.subrange(0, 0), surface));
    for function in it: functions
        invariant
            it.seq() == filed,
            all_emulated(filed, surface),
            table_view(table@) == table_of(filed.subrange(0, it.index() as int), surface),
    {
        let ghost upto = filed.subrange(0, it.index() + 1);
        assert(upto.drop_last() == filed.subrange(0, it.index() as int));
        assert(upto.last() == function);
        assert(function == filed[it.index() as int]);
        let selector = function.selector();
        let key = key_of(&selector);
        match function.operation(surface) {
            Some(operation) => {
                let ghost before = table@;
                table.insert(key, TableEntry { function, operation });
                assert(table_view(table@) =~= table_view(before).insert(
                    key,
                    entry_of(upto.last(), surface),
                ));
            },
            None => {
                assert(false);
            },
        }
    }
    proof {
        assert(filed.subrange(0, filed.len() as int) == filed);
        lemma_table_of_sound(filed, surface);
    }
    table
}

} // verus!
