//! Macros: names that stand for one or more lines to send to the server.

use vstd::hash_map::StringHashMap;
use vstd::prelude::*;
use vstd::string::StringExecFns;

verus! {

/// The lines of `lines` with a line feed between each two of them.
pub open spec fn join_lines(lines: Seq<Seq<char>>) -> Seq<char>
    decreases lines.len(),
{
    if lines.len() == 0 {
        Seq::empty()
    } else if lines.len() == 1 {
        lines[0]
    } else {
        join_lines(lines.drop_last()) + seq!['\n'] + lines.last()
    }
}

/// The strings of a vector, each as a sequence of characters.
pub open spec fn lines_view(lines: Seq<String>) -> Seq<Seq<char>> {
    lines.map_values(|line: String| line@)
}

/// A macro that expands to one or more lines to send to the server.
pub struct Macro {
    commands: Vec<String>,
}

impl View for Macro {
    type V = Seq<Seq<char>>;

    closed spec fn view(&self) -> Seq<Seq<char>> {
        lines_view(self.commands@)
    }
}

impl Macro {
    /// A macro that expands to `commands`.
    pub fn new(commands: Vec<String>) -> (made: Macro)
        ensures
            made@ == lines_view(commands@),
    {
        Macro { commands }
    }

    /// The lines of the macro as one text, a line feed between each two.
    pub fn expand(&self) -> (text: String)
        ensures
            text@ == join_lines(self@),
    {
        let mut text = String::new();
        let n = self.commands.len();
        let mut i: usize = 0;
        while i < n
            invariant
                n == self.commands@.len(),
                i <= n,
                text@ == join_lines(self@.take(i as int)),
            decreases n - i,
        {
            let ghost done = self@.take(i as int);
            let ghost next = self@.take(i + 1);
            proof {
                assert(next.drop_last() == done);
                assert(next.last() == self.commands@[i as int]@);
                reveal_strlit("\n");
                assert("\n"@ == seq!['\n']);
            }
            if i > 0 {
                text.append("\n");
            } else {
                assert(text@ + self.commands@[0]@ == self.commands@[0]@);
            }
            text.append(self.commands[i].as_str());
            i = i + 1;
        }
        assert(self@.take(n as int) == self@);
        text
    }
}

/// What the user has configured: the macros, by name.
pub struct Config {
    macros: StringHashMap<Macro>,
}

impl View for Config {
    type V = Map<Seq<char>, Seq<Seq<char>>>;

    closed spec fn view(&self) -> Map<Seq<char>, Seq<Seq<char>>> {
        self.macros@.map_values(|m: Macro| m@)
    }
}

impl Config {
    /// A configuration without macros.
    pub fn new() -> (config: Config)
        ensures
            config@ == Map::<Seq<char>, Seq<Seq<char>>>::empty(),
    {
        let config = Config { macros: StringHashMap::new() };
        assert(config@ =~= Map::<Seq<char>, Seq<Seq<char>>>::empty());
        config
    }

    /// Defines the macro `name` as `commands`. An earlier macro of that name
    /// is replaced.
    pub fn define_macro(&mut self, name: String, commands: Vec<String>)
        ensures
            final(self)@ == old(self)@.insert(name@, lines_view(commands@)),
    {
        let made = Macro::new(commands);
        self.macros.insert(name, made);
        assert(self@ =~= old(self)@.insert(name@, made@));
    }

    /// The text that the macro `name` expands to, if there is such a macro.
    pub fn expand_macro(&self, name: &str) -> (text: Option<String>)
        ensures
            text is Some <==> self@.contains_key(name@),
            text matches Some(expansion) ==> expansion@ == join_lines(self@[name@]),
    {
        match self.macros.get(name) {
            Some(found) => Some(found.expand()),
            None => None,
        }
    }
}

} // verus!
