//! Options for starting an environment, from the query of a request.

use vstd::prelude::*;

use crate::forms::query_pairs;
use crate::numerals::parse_usize;
use crate::text::same;

verus! {

/// What is asked for when an environment is started.
#[derive(Debug, Clone, Copy)]
pub struct StartOptions {
    /// The number of nodes.
    pub nodes: usize,
    /// The number of paths, where it is given.
    pub paths: Option<usize>,
    /// Whether what is running already may be used.
    pub reuse: bool,
}

/// The options where nothing is asked for.
pub open spec fn default_options() -> StartOptions {
    StartOptions { nodes: 1, paths: None, reuse: true }
}

/// The number that a value holds.
pub open spec fn count_of(value: Seq<char>) -> Option<usize> {
    match crate::numerals::unsigned_upto(value, usize::MAX as nat) {
        Some(n) => Some(n as usize),
        None => None,
    }
}

/// The options after a value was given for a key. What is not understood changes nothing.
pub open spec fn with_setting(o: StartOptions, key: Seq<char>, value: Seq<char>) -> StartOptions {
    if key == "n_nodes"@ || key == "nodes"@ {
        match count_of(value) {
            Some(n) => StartOptions {
                nodes: if n < 1 {
                    1
                } else {
                    n
                },
                ..o
            },
            None => o,
        }
    } else if key == "n_paths"@ || key == "paths"@ {
        match count_of(value) {
            Some(n) => StartOptions { paths: Some(n), ..o },
            None => o,
        }
    } else if key == "reuse"@ {
        StartOptions { reuse: value != "0"@ && value != "false"@, ..o }
    } else {
        o
    }
}

/// The options after values were given for keys, from left to right.
pub open spec fn options_of(settings: Seq<(Seq<char>, Seq<char>)>) -> StartOptions
    decreases settings.len(),
{
    if settings.len() == 0 {
        default_options()
    } else {
        with_setting(
            options_of(settings.drop_last()),
            settings.last().0,
            settings.last().1,
        )
    }
}

/// At least one node is asked for, whatever the query says.
pub proof fn a_node_is_asked_for(settings: Seq<(Seq<char>, Seq<char>)>)
    ensures
        options_of(settings).nodes >= 1,
    decreases settings.len(),
{
    if settings.len() > 0 {
        a_node_is_asked_for(settings.drop_last());
    }
}

fn set(o: StartOptions, key: &str, value: &str) -> (r: StartOptions)
    ensures
        r == with_setting(o, key@, value@),
{
    let mut r = o;
    if same(key, "n_nodes") || same(key, "nodes") {
        let n: Option<usize> = parse_usize(value);
        if let Some(n) = n {
            r.nodes = if n < 1 {
                1
            } else {
                n
            };
        }
    } else if same(key, "n_paths") || same(key, "paths") {
        let n: Option<usize> = parse_usize(value);
        if let Some(n) = n {
            r.paths = Some(n);
        }
    } else if same(key, "reuse") {
        r.reuse = !same(value, "0") && !same(value, "false");
    }
    r
}

impl StartOptions {
    /// The options that keys and values ask for.
    pub fn from_settings(settings: &Vec<(String, String)>) -> (r: Self)
        ensures
            r == options_of(crate::forms::pair_texts(settings@)),
            r.nodes >= 1,
    {
        let mut options = StartOptions { nodes: 1, paths: None, reuse: true };
        let mut i: usize = 0;
        let ghost all = crate::forms::pair_texts(settings@);
        assert(all.take(0) =~= Seq::<(Seq<char>, Seq<char>)>::empty());
        while i < settings.len()
            invariant
                i <= settings.len(),
                all == crate::forms::pair_texts(settings@),
                options == options_of(all.take(i as int)),
            decreases settings.len() - i,
        {
            assert(all.take(i + 1).drop_last() =~= all.take(i as int));
            options = set(options, settings[i].0.as_str(), settings[i].1.as_str());
            i += 1;
        }
        assert(all.take(i as int) =~= all);
        proof {
            a_node_is_asked_for(all);
        }
        options
    }

    /// The options that a query `key=value&...` asks for.
    pub fn from_query(query: &str) -> (r: Self)
        ensures
            r == options_of(crate::forms::pairs_in(crate::text::pieces(query@, '&'))),
            r.nodes >= 1,
    {
        StartOptions::from_settings(&query_pairs(query))
    }
}

/// A setting sets what it names and leaves the rest as it is: the number of nodes, which is one at
/// least, the number of paths, or whether what runs may be used.
pub proof fn settings_set_what_they_name(
    settings: Seq<(Seq<char>, Seq<char>)>,
    key: Seq<char>,
    value: Seq<char>,
    n: usize,
)
    ensures
        ({
            let before = options_of(settings);
            let after = options_of(settings.push((key, value)));
            &&& (key == "n_nodes"@ || key == "nodes"@) && value == crate::text::dec(n as nat)
                ==> after.nodes == (if n == 0 { 1 } else { n }) && after.paths == before.paths
                && after.reuse == before.reuse
            &&& (key == "n_paths"@ || key == "paths"@) && value == crate::text::dec(n as nat)
                ==> after.paths == Some(n) && after.nodes == before.nodes && after.reuse
                == before.reuse
            &&& key == "reuse"@ ==> after.reuse == !(value == "0"@ || value == "false"@)
                && after.nodes == before.nodes && after.paths == before.paths
            &&& key != "n_nodes"@ && key != "nodes"@ && key != "n_paths"@ && key != "paths"@ && key
                != "reuse"@ ==> after == before
            &&& options_of(Seq::empty()) == (StartOptions { nodes: 1, paths: None, reuse: true })
        }),
{
    assert(settings.push((key, value)).drop_last() =~= settings);
    crate::numerals::reading_a_numeral(n as nat);
    let d = crate::text::dec(n as nat);
    assert(crate::numerals::is_digit(d[0]));
    reveal_strlit("n_nodes");
    reveal_strlit("nodes");
    reveal_strlit("n_paths");
    reveal_strlit("paths");
    reveal_strlit("reuse");
    assert("n_nodes"@.len() == 7 && "nodes"@.len() == 5 && "n_paths"@.len() == 7 && "paths"@.len()
        == 5 && "reuse"@.len() == 5);
    assert("n_nodes"@[2] == 'n' && "n_paths"@[2] == 'p');
    assert("nodes"@[0] == 'n' && "paths"@[0] == 'p' && "reuse"@[0] == 'r');
}

} // verus!
