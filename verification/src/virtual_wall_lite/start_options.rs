//! Options for starting an existing experiment, from the query of a request.

use vstd::prelude::*;

use crate::forms::form_pairs;
use crate::start_options;
use crate::text::{find_text, split};

verus! {

/// What is asked for when an experiment is started. The experiment exists, so nothing of it has
/// an effect.
#[derive(Debug, Clone, Copy)]
pub struct StartOptions {
    /// The number of nodes.
    pub nodes: usize,
    /// The number of paths, where it is given.
    pub paths: Option<usize>,
    /// Whether what is running already may be used.
    pub reuse: bool,
}

/// The options that keys and values ask for.
pub open spec fn options_of(settings: Seq<(Seq<char>, Seq<char>)>) -> StartOptions {
    let o = crate::start_options::options_of(settings);
    StartOptions { nodes: o.nodes, paths: o.paths, reuse: o.reuse }
}

/// Whether a part of a query gives a value for a key.
pub open spec fn gives_value(part: Seq<char>) -> bool {
    crate::text::find_from(part, "="@, 0) is Some
}

/// The key and the value that a part of a query gives, decoded.
pub open spec fn decoded(part: Seq<char>) -> (Seq<char>, Seq<char>) {
    crate::forms::form_pairs_of(part)[0]
}

/// The keys and values that the parts of a query give; a part without `=` gives none.
pub open spec fn settings_in(parts: Seq<Seq<char>>) -> Seq<(Seq<char>, Seq<char>)>
    decreases parts.len(),
{
    if parts.len() == 0 {
        Seq::empty()
    } else {
        let before = settings_in(parts.drop_last());
        if gives_value(parts.last()) {
            before.push(decoded(parts.last()))
        } else {
            before
        }
    }
}

/// What is joined out of parts holds the characters of each part.
proof fn joined_has(parts: Seq<Seq<char>>, sep: Seq<char>, i: int, c: char)
    requires
        0 <= i < parts.len(),
        crate::text::has_char(parts[i], c),
    ensures
        crate::text::has_char(crate::text::joined(parts, sep), c),
    decreases parts.len(),
{
    if parts.len() > 1 {
        let before = crate::text::joined(parts.drop_last(), sep);
        let all = crate::text::joined(parts, sep);
        if i < parts.len() - 1 {
            joined_has(parts.drop_last(), sep, i, c);
            let k = choose|k: int| 0 <= k < before.len() && #[trigger] before[k] == c;
            assert(all[k] == c);
        } else {
            let k = choose|k: int| 0 <= k < parts[i].len() && #[trigger] parts[i][k] == c;
            assert(all[before.len() + sep.len() + k] == c);
        }
    }
}

impl StartOptions {
    /// The options that keys and values ask for.
    pub fn from_settings(settings: &Vec<(String, String)>) -> (r: Self)
        ensures
            r == options_of(crate::forms::pair_texts(settings@)),
            r.nodes >= 1,
    {
        let o = start_options::StartOptions::from_settings(settings);
        StartOptions { nodes: o.nodes, paths: o.paths, reuse: o.reuse }
    }

    /// The options that a query `key=value&...` asks for. Keys and values are encoded as in a
    /// form.
    pub fn from_query(query: &str) -> (r: Self)
        ensures
            r == options_of(settings_in(crate::text::pieces(query@, '&'))),
            crate::forms::is_plain(query@) ==> r == options_of(
                crate::forms::pairs_in(crate::text::pieces(query@, '&')),
            ),
            r.nodes >= 1,
    {
        let parts = split(query, '&');
        let mut settings: Vec<(String, String)> = Vec::new();
        let mut i: usize = 0;
        let ghost all = crate::text::texts(parts@);
        assert(crate::forms::pair_texts(settings@) =~= settings_in(all.take(0)));
        assert(crate::forms::pair_texts(settings@) =~= crate::forms::pairs_in(all.take(0)));
        while i < parts.len()
            invariant
                i <= parts.len(),
                all == crate::text::texts(parts@),
                crate::text::is_split(query@, '&', all),
                crate::forms::pair_texts(settings@) == settings_in(all.take(i as int)),
                crate::forms::is_plain(query@) ==> crate::forms::pair_texts(settings@)
                    == crate::forms::pairs_in(all.take(i as int)),
            decreases parts.len() - i,
        {
            assert(all.take(i + 1).drop_last() =~= all.take(i as int));
            assert(all.take(i + 1).last() == parts@[i as int]@);
            let part = parts[i].as_str();
            let ghost before = crate::forms::pair_texts(settings@);
            let at: Option<usize> = find_text(part, "=", 0);
            if at.is_some() {
                proof {
                    reveal_strlit("=");
                    crate::text::find_from_is_first(part@, "="@, 0);
                    assert(all[i as int] == part@);
                    if crate::text::has_char(part@, '%') {
                        joined_has(all, seq!['&'], i as int, '%');
                    }
                    if crate::text::has_char(part@, '+') {
                        joined_has(all, seq!['&'], i as int, '+');
                    }
                }
                let given = form_pairs(part);
                settings.push((given[0].0.clone(), given[0].1.clone()));
                assert(crate::forms::pair_texts(settings@) =~= before.push(decoded(part@)));
            }
            i += 1;
        }
        assert(all.take(i as int) =~= all);
        StartOptions::from_settings(&settings)
    }
}

/// The options are those that the settings give.
pub proof fn options_are_those_of_the_settings(settings: Seq<(Seq<char>, Seq<char>)>)
    ensures
        options_of(settings).nodes == crate::start_options::options_of(settings).nodes,
        options_of(settings).paths == crate::start_options::options_of(settings).paths,
        options_of(settings).reuse == crate::start_options::options_of(settings).reuse,
{
}

} // verus!
