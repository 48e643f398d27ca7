//! The mod catalog and the program configuration: plain descriptions of
//! the patches a user can enable, the selection logic over them, and the
//! command-line switch that decides whether the catalog is refreshed.
//! Fetching, caching and rendering the catalog are collaborators' work.

use vstd::prelude::*;

use vstd::string::StringExecFns;

verus! {

/// One patch in the catalog.
#[derive(Clone, Debug)]
pub struct Mod {
    /// The patch's display name.
    pub name: String,
    /// Who made it.
    pub author: String,
    /// What it does.
    pub description: String,
    /// Where to read about it.
    pub website_url: String,
    /// Where its patch bytes are fetched from.
    pub download_url: String,
}

/// The catalog: an ordered list of patches.
pub struct ModList {
    /// The patches, in catalog order.
    pub mods: Vec<Mod>,
}

/// The indices before `k` whose entry is set, in increasing order.
pub open spec fn enabled_upto(enabled: Seq<bool>, k: int) -> Seq<usize>
    decreases k,
{
    if k <= 0 {
        Seq::empty()
    } else {
        enabled_upto(enabled, k - 1) + if enabled[k - 1] {
            seq![(k - 1) as usize]
        } else {
            Seq::empty()
        }
    }
}

impl ModList {
    /// Which catalog entries one patch run will apply: the indices whose
    /// checkbox is set, in catalog order, never past the catalog's end.
    pub fn enabled_indices(&self, enabled: &Vec<bool>) -> (r: Vec<usize>)
        ensures
            r@ == enabled_upto(enabled@, vstd::math::min(enabled@.len() as int, self.mods@.len() as int)),
    {
        let n = if enabled.len() < self.mods.len() {
            enabled.len()
        } else {
            self.mods.len()
        };
        let mut r: Vec<usize> = Vec::new();
        let mut i: usize = 0;
        while i < n
            invariant
                n == vstd::math::min(enabled@.len() as int, self.mods@.len() as int),
                i <= n,
                r@ == enabled_upto(enabled@, i as int),
            decreases n - i,
        {
            if enabled[i] {
                r.push(i);
                assert(r@ =~= enabled_upto(enabled@, i as int + 1));
            } else {
                assert(r@ =~= enabled_upto(enabled@, i as int + 1));
            }
            i = i + 1;
        }
        r
    }
}

/// What the command line asked for.
#[derive(Clone, Copy, Debug, PartialEq, Eq, Structural)]
pub struct Config {
    /// Whether the catalog should be refreshed before the list is shown.
    pub check_update: bool,
}

/// The update switch an argument list denotes: refreshing is on unless
/// the switch names it and its value reads as the word for falsehood;
/// anything unreadable falls back to the default.
pub open spec fn spec_check_update(args: Seq<Seq<char>>) -> bool {
    if args.len() < 3 {
        true
    } else if args[1] != "--update"@ {
        true
    } else if args[2] == "false"@ {
        false
    } else {
        true
    }
}

impl Config {
    /// Reads the configuration from the program's argument list.
    pub fn new(args: &Vec<String>) -> (r: Config)
        ensures
            r.check_update == spec_check_update(args.deep_view()),
    {
        let ghost model = args.deep_view();
        if args.len() < 3 {
            return Config { check_update: true };
        }
        proof {
            assert(model[1] == args@[1]@);
            assert(model[2] == args@[2]@);
        }
        let update_switch = String::from_str("--update");
        if !(args[1] == update_switch) {
            return Config { check_update: true };
        }
        let falsehood = String::from_str("false");
        if args[2] == falsehood {
            proof {
                reveal_strlit("--update");
                reveal_strlit("false");
            }
            return Config { check_update: false };
        }
        Config { check_update: true }
    }
}

} // verus!
