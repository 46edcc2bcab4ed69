//! The command line of the chat program: one or two packed models.

use vstd::prelude::*;
use vstd::string::*;

verus! {

/// The models to load.
#[derive(Debug)]
pub struct CliArgs {
    pub shard1: String,
    pub shard2: Option<String>,
}

/// How the program is called.
pub open spec fn usage_text() -> Seq<char> {
    "Usage: phi3-mixed-quant <packed-model.safetensors> [shard2.safetensors]\nSingle file: phi3-mixed-quant model.safetensors\nTwo shards : phi3-mixed-quant shard1.safetensors shard2.safetensors"@
}

/// How the program is called.
pub fn usage() -> (s: &'static str)
    ensures
        s@ == usage_text(),
        s@
            == "Usage: phi3-mixed-quant <packed-model.safetensors> [shard2.safetensors]\nSingle file: phi3-mixed-quant model.safetensors\nTwo shards : phi3-mixed-quant shard1.safetensors shard2.safetensors"@,
{
    "Usage: phi3-mixed-quant <packed-model.safetensors> [shard2.safetensors]\nSingle file: phi3-mixed-quant model.safetensors\nTwo shards : phi3-mixed-quant shard1.safetensors shard2.safetensors"
}

impl CliArgs {
    /// Reads the arguments after the program's name. The first is needed; those
    /// after the second are ignored. The error is how the program is called.
    pub fn parse_from(args: &Vec<String>) -> (r: Result<CliArgs, &'static str>)
        ensures
            match r {
                Ok(a) => {
                    &&& args@.len() >= 1
                    &&& a.shard1@ == args@[0]@
                    &&& match a.shard2 {
                        Some(s) => args@.len() >= 2 && s@ == args@[1]@,
                        None => args@.len() < 2,
                    }
                },
                Err(m) => args@.len() == 0 && m@ == usage_text(),
            },
    {
        if args.len() == 0 {
            return Err(usage());
        }
        let shard2 = if args.len() >= 2 { Some(args[1].clone()) } else { None };
        Ok(CliArgs { shard1: args[0].clone(), shard2 })
    }
}

/// The first argument is the model, or its first shard, and the second, where
/// there is one, its second; how the program is called is said only where there
/// is none.
pub proof fn law_arguments_of_the_chat(args: &Vec<String>, r: Result<CliArgs, &'static str>)
    requires
        call_ensures(CliArgs::parse_from, (args,), r),
    ensures
        r is Ok <==> args@.len() > 0,
        r is Ok ==> r->Ok_0.shard1@ == args@[0]@,
        r is Ok && args@.len() >= 2 ==> r->Ok_0.shard2 is Some && r->Ok_0.shard2->0@ == args@[1]@,
        r is Ok && args@.len() == 1 ==> r->Ok_0.shard2 is None,
{
}

} // verus!
