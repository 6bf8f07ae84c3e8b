//! The device that a definition describes, and the features of it that the
//! generator supports.

use vstd::prelude::*;
use vstd::string::*;

use crate::generator::case::{
    lowercase, snake_case, to_lower, to_snake, to_upper_camel, upper_camel_case,
};
use crate::generator::common_structure::{CommonStructure, CommonStructures};
use crate::generator::field::{doc_of, doc_text};
use crate::generator::source_text::{generated_doc, generated_doc_text};

verus! {

/// The order of the bytes of a word.
#[derive(Debug, Clone, Copy, PartialEq, Eq)]
pub enum Endian {
    Little,
    Big,
}

/// The device of a definition.
#[derive(Debug, Clone, PartialEq)]
pub struct Device {
    pub name: String,
    /// Word size, in bits.
    pub word_size: u8,
    /// The order of the bytes of the words the device sends and receives.
    pub endian: Endian,
}

/// The unsupported features of a device: a word size other than 8 bits, and
/// big endian words.
pub open spec fn feature_errors(word_size: u8, endian: Endian) -> Seq<Seq<char>> {
    let size_errors = if word_size != 8 {
        seq!["word_size should be 8"@]
    } else {
        Seq::empty()
    };
    match endian {
        Endian::Little => size_errors,
        Endian::Big => size_errors.push("only little endian format is supported"@),
    }
}

/// The texts joined, separated by `, `.
pub open spec fn comma_join(items: Seq<Seq<char>>) -> Seq<char>
    decreases items.len(),
{
    if items.len() == 0 {
        Seq::empty()
    } else if items.len() == 1 {
        items[0]
    } else {
        comma_join(items.drop_last()) + ", "@ + items.last()
    }
}

/// The message that lists unsupported features.
pub open spec fn unsupported_message(errors: Seq<Seq<char>>) -> Seq<char> {
    "Error: Unsupported features specified: "@ + comma_join(errors)
}

impl Device {
    /// Checks that the generator supports the device: its words are bytes
    /// and little endian. Otherwise the error lists what is not supported.
    pub fn check_limitations(&self) -> (r: Result<(), String>)
        ensures
            match r {
                Ok(()) => feature_errors(self.word_size, self.endian).len() == 0,
                Err(msg) => feature_errors(self.word_size, self.endian).len() > 0 && msg@
                    == unsupported_message(feature_errors(self.word_size, self.endian)),
            },
    {
        proof {
            reveal_strlit("word_size should be 8");
            reveal_strlit("only little endian format is supported");
            reveal_strlit("Error: Unsupported features specified: ");
            reveal_strlit(", ");
        }
        let ghost errors = feature_errors(self.word_size, self.endian);
        let size_error = self.word_size != 8;
        let endian_error = match self.endian {
            Endian::Little => false,
            Endian::Big => true,
        };
        if !size_error && !endian_error {
            return Ok(());
        }
        let mut msg = String::from_str("Error: Unsupported features specified: ");
        if size_error {
            msg.append("word_size should be 8");
            if endian_error {
                msg.append(", ");
                msg.append("only little endian format is supported");
                assert(errors.drop_last() =~= seq!["word_size should be 8"@]);
                assert(comma_join(errors.drop_last()) == "word_size should be 8"@);
            } else {
                assert(errors =~= seq!["word_size should be 8"@]);
            }
        } else {
            msg.append("only little endian format is supported");
            assert(errors =~= seq!["only little endian format is supported"@]);
        }
        Err(msg)
    }
}

/// The module lines of the common structures, each named in lower case.
pub open spec fn structure_mods(cs: Seq<(Seq<char>, CommonStructure)>) -> Seq<char>
    decreases cs.len(),
{
    if cs.len() == 0 {
        Seq::empty()
    } else {
        structure_mods(cs.drop_last()) + "pub mod "@ + lowercase(cs.last().0) + ";\n"@
    }
}

/// The module lines of the commands, each named in lower case.
pub open spec fn command_mods(names: Seq<Seq<char>>) -> Seq<char>
    decreases names.len(),
{
    if names.len() == 0 {
        Seq::empty()
    } else {
        command_mods(names.drop_last()) + "pub mod "@ + lowercase(names.last()) + ";\n"@
    }
}

/// The module lines of the providers, each named in snake case.
pub open spec fn provider_mods(providers: Seq<Seq<char>>) -> Seq<char>
    decreases providers.len(),
{
    if providers.len() == 0 {
        Seq::empty()
    } else {
        provider_mods(providers.drop_last()) + "pub mod "@ + snake_case(providers.last())
            + ";\n"@
    }
}

/// The root file of a generated driver: `no_std` outside tests, the
/// re-exports, and a module for each common structure, each command, the
/// runtime and, under a documentation comment, each provider.
pub open spec fn lib_spec(
    cs: Seq<(Seq<char>, CommonStructure)>,
    commands: Seq<Seq<char>>,
    providers: Seq<Seq<char>>,
) -> Seq<char> {
    "#![cfg_attr(not(test), no_std)]\n\npub use crate::types::*;\npub use crate::error::DeviceError;\n\n"@
        + structure_mods(cs) + command_mods(commands)
        + "pub mod error;\npub mod types;\npub mod deserialize;\npub mod serialize;\npub mod request;\npub mod response;\npub mod bits;\npub mod command;\npub mod transmit;\n"@
        + if providers.len() > 0 {
        doc_text("Providers"@) + "\n"@ + provider_mods(providers)
    } else {
        Seq::empty()
    }
}

/// The file of a provider named `name`: a type of that name that gives no
/// bytes, for its user to fill in.
pub open spec fn provider_file_spec(name: Seq<char>, version: Seq<char>) -> Seq<char> {
    doc_text("Provider iterator"@) + "\n"@ + generated_doc_text(version)
        + "\n\n#[derive(Debug, PartialEq, Copy, Clone)]\npub struct "@ + upper_camel_case(name)
        + " {}\n\nimpl Iterator for "@ + upper_camel_case(name)
        + " {\n    type Item = u8;\n\n    /// The next byte that the provider gives.\n    fn next(&mut self) -> Option<Self::Item> {\n        None\n    }\n}\n"@
}

/// Writes the root file of a driver with the common structures, the
/// commands named `commands` and the providers.
pub fn lib_text(
    common_structures: &CommonStructures,
    commands: &Vec<String>,
    providers: &Vec<String>,
) -> (r: String)
    ensures
        r@ == lib_spec(
            common_structures.entries(),
            commands@.map_values(|c: String| c@),
            providers@.map_values(|p: String| p@),
        ),
{
    let ghost e = common_structures.entries();
    let mut structures = String::new();
    let mut i: usize = 0;
    while i < common_structures.len()
        invariant
            i <= e.len(),
            e == common_structures.entries(),
            structures@ == structure_mods(e.take(i as int)),
        decreases e.len() - i,
    {
        assert(e.take(i + 1).drop_last() =~= e.take(i as int));
        assert(e.take(i + 1).last() == e[i as int]);
        let (name, _) = common_structures.entry(i);
        structures.append("pub mod ");
        structures.append(to_lower(name).as_str());
        structures.append(";\n");
        i = i + 1;
    }
    assert(e.take(i as int) =~= e);
    let ghost names = commands@.map_values(|c: String| c@);
    let mut modules = String::new();
    let mut j: usize = 0;
    while j < commands.len()
        invariant
            j <= names.len(),
            names == commands@.map_values(|c: String| c@),
            modules@ == command_mods(names.take(j as int)),
        decreases names.len() - j,
    {
        assert(names.take(j + 1).drop_last() =~= names.take(j as int));
        assert(names.take(j + 1).last() == commands@[j as int]@);
        modules.append("pub mod ");
        modules.append(to_lower(commands[j].as_str()).as_str());
        modules.append(";\n");
        j = j + 1;
    }
    assert(names.take(j as int) =~= names);
    let mut s = String::from_str(
        "#![cfg_attr(not(test), no_std)]\n\npub use crate::types::*;\npub use crate::error::DeviceError;\n\n",
    );
    s.append(structures.as_str());
    s.append(modules.as_str());
    s.append(
        "pub mod error;\npub mod types;\npub mod deserialize;\npub mod serialize;\npub mod request;\npub mod response;\npub mod bits;\npub mod command;\npub mod transmit;\n",
    );
    let ghost ps = providers@.map_values(|p: String| p@);
    if providers.len() > 0 {
        let mut listed = doc_of("Providers");
        listed.append("\n");
        let mut k: usize = 0;
        while k < providers.len()
            invariant
                k <= ps.len(),
                ps == providers@.map_values(|p: String| p@),
                listed@ == doc_text("Providers"@) + "\n"@ + provider_mods(ps.take(k as int)),
            decreases ps.len() - k,
        {
            assert(ps.take(k + 1).drop_last() =~= ps.take(k as int));
            assert(ps.take(k + 1).last() == providers@[k as int]@);
            let ghost before = listed@;
            listed.append("pub mod ");
            listed.append(to_snake(providers[k].as_str()).as_str());
            listed.append(";\n");
            assert(listed@ =~= doc_text("Providers"@) + "\n"@ + provider_mods(
                ps.take(k + 1),
            ));
            k = k + 1;
        }
        assert(ps.take(k as int) =~= ps);
        s.append(listed.as_str());
    } else {
        assert(s@ =~= s@ + Seq::<char>::empty());
    }
    s
}

/// Writes the file of the provider named `name`, generated with the given
/// version of the generator.
pub fn provider_file_text(name: &str, version: &str) -> (r: String)
    ensures
        r@ == provider_file_spec(name@, version@),
{
    let struct_name = to_upper_camel(name);
    let mut s = doc_of("Provider iterator");
    s.append("\n");
    s.append(generated_doc(version).as_str());
    s.append("\n\n#[derive(Debug, PartialEq, Copy, Clone)]\npub struct ");
    s.append(struct_name.as_str());
    s.append(" {}\n\nimpl Iterator for ");
    s.append(struct_name.as_str());
    s.append(
        " {\n    type Item = u8;\n\n    /// The next byte that the provider gives.\n    fn next(&mut self) -> Option<Self::Item> {\n        None\n    }\n}\n",
    );
    s
}

/// The name of the file of the provider named `name`: the name in snake
/// case, with `.rs`.
pub fn provider_file_name(name: &str) -> (r: String)
    ensures
        r@ == snake_case(name@) + ".rs"@,
{
    let s = to_snake(name);
    s.concat(".rs")
}

} // verus!
