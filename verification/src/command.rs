//! The launch command builder: turns an ordered sequence of launch
//! directives into the argument tokens handed to the external command
//! executor, applying the tab/pane separator and flag rules.

use vstd::prelude::*;

use crate::model::Config;
use crate::resolve::{resolve, resolve_result_spec, DirectiveV, LaunchDirective, ResolveError};

verus! {

/// The argument tokens one directive contributes: a separator and a mode
/// token for every directive but the first overall, an optional title flag,
/// the mandatory starting directory flag, then the directive's commands.
pub open spec fn tokens_of(d: DirectiveV) -> Seq<Seq<char>> {
    (if !d.is_first_overall {
        seq![
            ";"@,
            if d.split_pane {
                "split-pane"@
            } else {
                "new-tab"@
            },
        ]
    } else {
        Seq::empty()
    }) + (match d.title {
        Some(t) => seq!["--title"@, t],
        None => Seq::empty(),
    }) + seq!["--startingDirectory"@, d.starting_directory] + d.commands
}

/// All argument tokens of a directive sequence, in order.
pub open spec fn build_spec(ds: Seq<DirectiveV>) -> Seq<Seq<char>>
    decreases ds.len(),
{
    if ds.len() == 0 {
        Seq::empty()
    } else {
        build_spec(ds.drop_last()) + tokens_of(ds.last())
    }
}

/// Builds the argument token sequence for a resolved directive sequence.
/// Tokens pass through unquoted and unescaped, one argument each.
pub fn build(directives: &Vec<LaunchDirective>) -> (tokens: Vec<String>)
    ensures
        tokens.deep_view() == build_spec(directives.deep_view()),
{
    let n = directives.len();
    let mut out: Vec<String> = Vec::new();
    proof {
        assert(out.deep_view() =~~= build_spec(directives.deep_view().take(0)));
    }
    for i in 0..n
        invariant
            n == directives@.len(),
            out.deep_view() == build_spec(directives.deep_view().take(i as int)),
    {
        let d = &directives[i];
        let ghost dv = directives.deep_view()[i as int];
        let ghost base = out.deep_view();
        if !d.is_first_overall {
            out.push(";".to_owned());
            if d.split_pane {
                out.push("split-pane".to_owned());
            } else {
                out.push("new-tab".to_owned());
            }
        }
        match &d.title {
            Some(t) => {
                out.push("--title".to_owned());
                out.push(t.clone());
            },
            None => {},
        }
        out.push("--startingDirectory".to_owned());
        out.push(d.starting_directory.clone());
        let ghost mid = out.deep_view();
        proof {
            assert(mid =~~= base + (tokens_of(dv).take(
                tokens_of(dv).len() - dv.commands.len(),
            )));
            assert(out.deep_view() =~~= mid + dv.commands.take(0));
        }
        let m = d.commands.len();
        for j in 0..m
            invariant
                m == dv.commands.len(),
                dv == directives.deep_view()[i as int],
                i < directives@.len(),
                d == &directives[i as int],
                out.deep_view() == mid + dv.commands.take(j as int),
        {
            let ghost prev = out.deep_view();
            out.push(d.commands[j].clone());
            proof {
                assert(out.deep_view() =~~= prev.push(dv.commands[j as int]));
                assert(prev.push(dv.commands[j as int]) =~~= mid + dv.commands.take(j + 1));
            }
        }
        proof {
            assert(dv.commands.take(dv.commands.len() as int) =~= dv.commands);
            assert(mid + dv.commands =~~= base + tokens_of(dv));
            assert(directives.deep_view().take(i + 1).drop_last() =~= directives.deep_view().take(
                i as int,
            ));
            assert(directives.deep_view().take(i + 1).last() == dv);
            assert(out.deep_view() =~~= build_spec(directives.deep_view().take(i + 1)));
        }
    }
    proof {
        assert(directives.deep_view().take(n as int) =~= directives.deep_view());
    }
    out
}

/// Resolves the named workspace and builds the argument tokens its launch
/// needs, in one step.
pub fn launch_tokens(config: &Config, name: &str) -> (r: Result<Vec<String>, ResolveError>)
    ensures
        ({
            let s = resolve_result_spec(config@, name@);
            match r {
                Ok(ts) => s is Ok && ts.deep_view() == build_spec(s->Ok_0),
                Err(e) => s is Err && e@ == s->Err_0,
            }
        }),
{
    match resolve(config, name) {
        Ok(ds) => Ok(build(&ds)),
        Err(e) => Err(e),
    }
}

} // verus!
