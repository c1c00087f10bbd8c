use vstd::prelude::*;

use crate::text::{chars_of, string_of};

verus! {

/// A flag rule: a command prefix and the text spliced in right after it.
pub type RuleView = (Seq<char>, Seq<char>);

/// The text stored for one configured flag: a space, then the flag.
pub open spec fn spaced(flag: Seq<char>) -> Seq<char> {
    seq![' '] + flag
}

/// No prefix occurs twice among the rules.
pub open spec fn keys_unique(rules: Seq<RuleView>) -> bool {
    forall|i: int, j: int|
        0 <= i < rules.len() && 0 <= j < rules.len() && i != j ==> rules[i].0 != rules[j].0
}

/// The rules after configuring `flag` for `tool`: appended to the tool's
/// stored text when the tool has one, a new rule at the end otherwise.
pub open spec fn add_flag(rules: Seq<RuleView>, tool: Seq<char>, flag: Seq<char>) -> Seq<RuleView> {
    if exists|i: int| 0 <= i < rules.len() && rules[i].0 == tool {
        let i = choose|i: int| 0 <= i < rules.len() && rules[i].0 == tool;
        rules.update(i, (tool, rules[i].1 + spaced(flag)))
    } else {
        rules.push((tool, spaced(flag)))
    }
}

/// `s` begins with `p`.
pub open spec fn has_prefix(s: Seq<char>, p: Seq<char>) -> bool {
    p.len() <= s.len() && s.subrange(0, p.len() as int) == p
}

/// One rule applied to a command: the flag text goes right after the prefix
/// when the command begins with it.
pub open spec fn apply_rule(cmd: Seq<char>, rule: RuleView) -> Seq<char> {
    if has_prefix(cmd, rule.0) {
        rule.0 + rule.1 + cmd.subrange(rule.0.len() as int, cmd.len() as int)
    } else {
        cmd
    }
}

/// All rules applied to a command, in their order.
pub open spec fn apply_rules(cmd: Seq<char>, rules: Seq<RuleView>) -> Seq<char>
    decreases rules.len(),
{
    if rules.len() == 0 {
        cmd
    } else {
        apply_rule(apply_rules(cmd, rules.drop_last()), rules.last())
    }
}

/// Configuring two flags for one tool stores them as one text, the first flag
/// then the second, each after a space: in a new rule at the end when the
/// tool had none, appended to its rule otherwise. The other rules stay.
pub proof fn lemma_flags_accumulate(rules: Seq<RuleView>, tool: Seq<char>, f1: Seq<char>, f2: Seq<char>)
    requires
        keys_unique(rules),
    ensures
        (forall|i: int| 0 <= i < rules.len() ==> rules[i].0 != tool) ==> add_flag(
            add_flag(rules, tool, f1),
            tool,
            f2,
        ) == rules.push((tool, spaced(f1) + spaced(f2))),
        forall|i: int|
            0 <= i < rules.len() && rules[i].0 == tool ==> add_flag(add_flag(rules, tool, f1), tool, f2)
                == rules.update(i, (tool, rules[i].1 + spaced(f1) + spaced(f2))),
{
    let once = add_flag(rules, tool, f1);
    if exists|i: int| 0 <= i < rules.len() && rules[i].0 == tool {
        let i = choose|i: int| 0 <= i < rules.len() && rules[i].0 == tool;
        assert(once[i].0 == tool);
        let j = choose|j: int| 0 <= j < once.len() && once[j].0 == tool;
        assert(j == i);
        assert(add_flag(once, tool, f2) =~= rules.update(i, (tool, rules[i].1 + spaced(f1) + spaced(f2))));
    } else {
        assert(once[rules.len() as int].0 == tool);
        let j = choose|j: int| 0 <= j < once.len() && once[j].0 == tool;
        assert(j == rules.len());
        assert(add_flag(once, tool, f2) =~= rules.push((tool, spaced(f1) + spaced(f2))));
    }
}

/// Extra flags for commands, keyed by the command's prefix (the tool), kept in
/// the order in which the tools were first configured.
#[derive(Debug, Clone)]
pub struct Options {
    extra_flags: Vec<(String, String)>,
}

impl View for Options {
    type V = Seq<RuleView>;

    closed spec fn view(&self) -> Seq<RuleView> {
        self.extra_flags@.map_values(|r: (String, String)| (r.0@, r.1@))
    }
}

impl Default for Options {
    fn default() -> (r: Self)
        ensures
            r@ == Seq::<RuleView>::empty(),
            r.wf(),
    {
        Options { extra_flags: Vec::new() }
    }
}

impl Options {
    /// Each tool has a single rule.
    pub open spec fn wf(&self) -> bool {
        keys_unique(self@)
    }

    /// Options with no flags.
    pub fn new() -> (r: Self)
        ensures
            r@ == Seq::<RuleView>::empty(),
            r.wf(),
    {
        Options { extra_flags: Vec::new() }
    }

    /// The configured rules, in order.
    pub fn rules(&self) -> (r: &Vec<(String, String)>)
        ensures
            r@.map_values(|r: (String, String)| (r.0@, r.1@)) == self@,
    {
        &self.extra_flags
    }

    /// Adds `flag` for commands that begin with `tool`. Flags for one tool
    /// accumulate: each is appended, after a space, to the tool's stored text.
    pub fn flag(&mut self, tool: &str, flag: &str) -> (r: &mut Self)
        requires
            old(self).wf(),
        ensures
            r@ == add_flag(old(self)@, tool@, flag@),
            r.wf(),
            *final(self) == *final(r),
    {
        let mut spaced_flag = String::from_str(" ");
        proof {
            reveal_strlit(" ");
        }
        spaced_flag.append(flag);
        assert(spaced_flag@ =~= spaced(flag@));
        let n = self.extra_flags.len();
        let mut i: usize = 0;
        while i < n
            invariant
                n == self.extra_flags.len(),
                0 <= i <= n,
                self@ == old(self)@,
                spaced_flag@ == spaced(flag@),
                keys_unique(old(self)@),
                forall|j: int| 0 <= j < i ==> old(self)@[j].0 != tool@,
            decreases n - i,
        {
            if str_eq(self.extra_flags[i].0.as_str(), tool) {
                let ghost old_rules = self@;
                let mut stored = self.extra_flags[i].1.clone();
                stored.append(spaced_flag.as_str());
                let key = self.extra_flags[i].0.clone();
                assert(key@ == tool@);
                assert(stored@ == old_rules[i as int].1 + spaced(flag@));
                self.extra_flags.set(i, (key, stored));
                proof {
                    assert(self.extra_flags@[i as int].0@ == tool@);
                    assert(self@[i as int] == (tool@, old_rules[i as int].1 + spaced(flag@)));
                    assert(self@.len() == old_rules.len());
                    assert(forall|j: int| 0 <= j < self@.len() && j != i ==> self@[j] == old_rules[j]);
                    assert(old_rules[i as int].0 == tool@);
                    assert(self@ =~= old_rules.update(i as int, (tool@, old_rules[i as int].1 + spaced(flag@))));
                    let c = choose|j: int| 0 <= j < old_rules.len() && old_rules[j].0 == tool@;
                    assert(c == i);
                    assert(forall|j: int| 0 <= j < self@.len() ==> self@[j].0 == old_rules[j].0);
                }
                return self;
            }
            i = i + 1;
        }
        self.extra_flags.push((String::from_str(tool), spaced_flag));
        proof {
            assert(self@ =~= old(self)@.push((tool@, spaced(flag@))));
            assert(!exists|j: int| 0 <= j < old(self)@.len() && old(self)@[j].0 == tool@);
        }
        self
    }
}

/// `prefix` then `flag` then what follows `prefix` in `cmd`, when `cmd`
/// begins with `prefix`; `cmd` itself otherwise.
fn splice(cmd: &str, prefix: &str, flag: &str) -> (r: String)
    ensures
        r@ == apply_rule(cmd@, (prefix@, flag@)),
{
    let c = chars_of(cmd);
    let p = chars_of(prefix);
    if p.len() > c.len() {
        return String::from_str(cmd);
    }
    let mut k: usize = 0;
    while k < p.len()
        invariant
            p.len() <= c.len(),
            c@ == cmd@,
            p@ == prefix@,
            0 <= k <= p.len(),
            c@.subrange(0, k as int) == p@.subrange(0, k as int),
        decreases p.len() - k,
    {
        if c[k] != p[k] {
            assert(c@.subrange(0, p.len() as int)[k as int] != p@[k as int]);
            assert(!has_prefix(cmd@, prefix@));
            return String::from_str(cmd);
        }
        k = k + 1;
        assert(c@.subrange(0, k as int) =~= p@.subrange(0, k as int));
    }
    assert(p@.subrange(0, p.len() as int) =~= p@);
    assert(has_prefix(cmd@, prefix@));
    let rest = slice_from(&c, p.len());
    let mut out = String::from_str(prefix);
    out.append(flag);
    let tail = string_of(rest.as_slice());
    out.append(tail.as_str());
    assert(out@ == prefix@ + flag@ + cmd@.subrange(prefix@.len() as int, cmd@.len() as int));
    out
}

/// The characters of `v` from index `start` on.
fn slice_from(v: &Vec<char>, start: usize) -> (r: Vec<char>)
    requires
        start <= v.len(),
    ensures
        r@ == v@.subrange(start as int, v.len() as int),
{
    let mut out: Vec<char> = Vec::new();
    let mut i: usize = start;
    while i < v.len()
        invariant
            start <= i <= v.len(),
            out@ == v@.subrange(start as int, i as int),
        decreases v.len() - i,
    {
        out.push(v[i]);
        i = i + 1;
        assert(out@ =~= v@.subrange(start as int, i as int));
    }
    out
}

/// Adds the flags to every command that begins with a configured prefix:
/// the rules are applied one after another, in order, each inserting its
/// flag text right after its prefix. The number and order of the commands
/// stay as they are.
pub fn apply_extra_flags(flags: &Vec<(String, String)>, commands: &mut Vec<String>)
    ensures
        final(commands)@.len() == old(commands)@.len(),
        forall|i: int|
            0 <= i < final(commands)@.len() ==> #[trigger] final(commands)@[i]@ == apply_rules(
                old(commands)@[i]@,
                flags@.map_values(|r: (String, String)| (r.0@, r.1@)),
            ),
{
    let ghost rules = flags@.map_values(|r: (String, String)| (r.0@, r.1@));
    let n = commands.len();
    let mut i: usize = 0;
    while i < n
        invariant
            n == commands.len(),
            n == old(commands)@.len(),
            0 <= i <= n,
            rules == flags@.map_values(|r: (String, String)| (r.0@, r.1@)),
            forall|j: int| 0 <= j < i ==> #[trigger] commands@[j]@ == apply_rules(old(commands)@[j]@, rules),
            forall|j: int| i <= j < n ==> #[trigger] commands@[j] == old(commands)@[j],
        decreases n - i,
    {
        let mut cmd = commands[i].clone();
        assert(cmd@ == old(commands)@[i as int]@);
        let mut k: usize = 0;
        while k < flags.len()
            invariant
                0 <= k <= flags.len(),
                0 <= i < n,
                n == old(commands)@.len(),
                rules == flags@.map_values(|r: (String, String)| (r.0@, r.1@)),
                cmd@ == apply_rules(old(commands)@[i as int]@, rules.subrange(0, k as int)),
            decreases flags.len() - k,
        {
            let rule = &flags[k];
            cmd = splice(cmd.as_str(), rule.0.as_str(), rule.1.as_str());
            proof {
                let s = rules.subrange(0, k + 1);
                assert(s.drop_last() =~= rules.subrange(0, k as int));
                assert(s.last() == rules[k as int]);
            }
            k = k + 1;
        }
        assert(rules.subrange(0, flags.len() as int) =~= rules);
        commands.set(i, cmd);
        i = i + 1;
    }
}

/// `a` and `b` hold the same characters.
fn str_eq(a: &str, b: &str) -> (r: bool)
    ensures
        r == (a@ == b@),
{
    let x = String::from_str(a);
    let y = String::from_str(b);
    x == y
}

} // verus!
