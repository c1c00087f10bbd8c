use vstd::prelude::*;

use crate::error::Error;
use crate::extract::{code_lines, markdown_events, nested, parse_commands};
use crate::options::{apply_extra_flags, apply_rules, Options};

verus! {

/// One run instruction per command, each on its own line.
pub open spec fn run_lines(cmds: Seq<Seq<char>>) -> Seq<char>
    decreases cmds.len(),
{
    if cmds.len() == 0 {
        seq![]
    } else {
        run_lines(cmds.drop_last()) + "RUN "@ + cmds.last() + "\n"@
    }
}

/// The recipe text: the base image line, then a run line per command, each
/// line ended by a newline.
pub open spec fn recipe(base: Seq<char>, cmds: Seq<Seq<char>>) -> Seq<char> {
    "FROM "@ + base + "\n"@ + run_lines(cmds)
}

/// The commands of a document with the flag rules applied to each.
pub open spec fn flagged(cmds: Seq<Seq<char>>, rules: Seq<(Seq<char>, Seq<char>)>) -> Seq<Seq<char>> {
    cmds.map_values(|c: Seq<char>| apply_rules(c, rules))
}

/// A container build recipe: a base image and the commands run on it, in order.
#[derive(Debug, Clone)]
pub struct Dockerfile {
    pub base: String,
    pub commands: Vec<String>,
}

impl Dockerfile {
    /// The commands, as character sequences.
    pub open spec fn command_views(&self) -> Seq<Seq<char>> {
        self.commands@.map_values(|c: String| c@)
    }

    /// The recipe text, each command written as it is.
    pub fn render(&self) -> (r: String)
        ensures
            r@ == recipe(self.base@, self.command_views()),
    {
        proof {
            reveal_strlit("FROM ");
            reveal_strlit("RUN ");
            reveal_strlit("\n");
        }
        let mut out = String::from_str("FROM ");
        out.append(self.base.as_str());
        out.append("\n");
        let ghost head = out@;
        let mut i: usize = 0;
        assert(self.command_views().take(0) =~= Seq::<Seq<char>>::empty());
        while i < self.commands.len()
            invariant
                0 <= i <= self.commands@.len(),
                head == "FROM "@ + self.base@ + "\n"@,
                out@ == head + run_lines(self.command_views().take(i as int)),
            decreases self.commands@.len() - i,
        {
            let ghost prev = out@;
            out.append("RUN ");
            out.append(self.commands[i].as_str());
            out.append("\n");
            proof {
                let t = self.command_views().take(i + 1);
                assert(t.drop_last() =~= self.command_views().take(i as int));
                assert(t.last() == self.commands@[i as int]@);
                assert(out@ =~= head + run_lines(t));
            }
            i = i + 1;
        }
        assert(self.command_views().take(self.commands@.len() as int) =~= self.command_views());
        out
    }
}

/// The recipe for the markdown document `markdown` on the base image
/// `docker_base`: the commands of its code blocks, in order, with the flag
/// rules of `options` applied. Fails with a parse error when a code block
/// starts inside another.
pub fn recipe_from_markdown(docker_base: &str, options: &Options, markdown: &str) -> (r: Result<
    String,
    Error,
>)
    ensures
        r is Err <==> nested(markdown_events(markdown@)),
        r is Err ==> r->Err_0 is ParseMd,
        r is Ok ==> r->Ok_0@ == recipe(
            docker_base@,
            flagged(code_lines(markdown_events(markdown@)), options@),
        ),
{
    let mut commands = match parse_commands(markdown) {
        Ok(c) => c,
        Err(e) => {
            return Err(e);
        },
    };
    let ghost before = commands@;
    apply_extra_flags(options.rules(), &mut commands);
    let dockerfile = Dockerfile { base: String::from_str(docker_base), commands };
    proof {
        let cmds = code_lines(markdown_events(markdown@));
        assert(before.map_values(|l: String| l@) == cmds);
        assert(dockerfile.command_views() =~= flagged(cmds, options@)) by {
            assert forall|i: int| 0 <= i < cmds.len() implies dockerfile.command_views()[i] == flagged(cmds, options@)[i] by {
                assert(before[i]@ == cmds[i]);
            }
        }
    }
    Ok(dockerfile.render())
}

/// The outcome of a finished build: success when the engine reported success,
/// otherwise a build failure that carries the engine's exit code.
pub fn build_outcome(success: bool, code: Option<i32>) -> (r: Result<(), Error>)
    ensures
        success ==> r is Ok,
        !success ==> r == Err::<(), Error>(Error::DockerBuild(code)),
{
    if success {
        Ok(())
    } else {
        Err(Error::DockerBuild(code))
    }
}

} // verus!
