//! The shell script that runs several commands with one authorization.

use vstd::prelude::*;
use vstd::string::*;

use crate::text::chars_of;

verus! {

/// The name of the command that changes the firewall.
pub const FIREWALL_CMD: &'static str = "firewall-cmd";

/// `s` with each single quote closed, escaped and opened again.
pub open spec fn requoted(s: Seq<char>) -> Seq<char> {
    crate::text::with_char_replaced(s, '\'', seq!['\'', '\\', '\'', '\''])
}

/// `arg` as one word of a shell.
pub open spec fn quoted(arg: Seq<char>) -> Seq<char> {
    seq!['\''] + requoted(arg) + seq!['\'']
}

/// `arg` as one word of a shell, whose value is exactly `arg`.
pub fn shell_quote(arg: &str) -> (r: String)
    ensures
        r@ == quoted(arg@),
{
    let cs = chars_of(arg);
    let mut r = String::new();
    r.push('\'');
    let mut i: usize = 0;
    assert(r@ =~= seq!['\''] + requoted(cs@.take(0)));
    while i < cs.len()
        invariant
            i <= cs.len(),
            r@ == seq!['\''] + requoted(cs@.take(i as int)),
        decreases cs.len() - i,
    {
        let ghost before = r@;
        assert(cs@.take(i as int + 1).drop_last() =~= cs@.take(i as int));
        if cs[i] == '\'' {
            r.push('\'');
            r.push('\\');
            r.push('\'');
            r.push('\'');
            assert(r@ =~= before + seq!['\'', '\\', '\'', '\'']);
        } else {
            r.push(cs[i]);
            assert(r@ =~= before + seq![cs@[i as int]]);
        }
        i += 1;
        assert(r@ =~= seq!['\''] + requoted(cs@.take(i as int)));
    }
    assert(cs@.take(i as int) =~= cs@);
    r.push('\'');
    assert(r@ =~= quoted(arg@));
    r
}

/// The arguments of a command, each as a quoted word with a space before it.
pub open spec fn quoted_args(args: Seq<Seq<char>>) -> Seq<char>
    decreases args.len(),
{
    if args.len() == 0 {
        Seq::empty()
    } else {
        quoted_args(args.drop_last()) + seq![' '] + quoted(args.last())
    }
}

/// The lines of a script that runs the firewall command once for each batch.
pub open spec fn script_lines(batches: Seq<Seq<Seq<char>>>) -> Seq<char>
    decreases batches.len(),
{
    if batches.len() == 0 {
        Seq::empty()
    } else {
        script_lines(batches.drop_last()) + "firewall-cmd"@ + quoted_args(batches.last()) + seq![
            '\n',
        ]
    }
}

/// A script that runs the firewall command once for each batch, and stops at the
/// first that fails.
pub open spec fn script_of(batches: Seq<Seq<Seq<char>>>) -> Seq<char> {
    "set -e\n"@ + script_lines(batches)
}

/// Append the arguments of a command.
fn push_args(script: &mut String, args: &Vec<String>)
    ensures
        final(script)@ == old(script)@ + quoted_args(args.deep_view()),
{
    let ghost before = script@;
    let ghost all = args.deep_view();
    let mut i: usize = 0;
    assert(before + quoted_args(all.take(0)) =~= before);
    while i < args.len()
        invariant
            i <= args.len(),
            all == args.deep_view(),
            script@ == before + quoted_args(all.take(i as int)),
        decreases args.len() - i,
    {
        proof {
            let next = all.take(i as int + 1);
            assert(next.drop_last() =~= all.take(i as int));
            assert(next.last() == args[i as int]@);
        }
        let ghost now = script@;
        script.push(' ');
        let word = shell_quote(args[i].as_str());
        script.append(word.as_str());
        assert(script@ =~= now + (seq![' '] + word@));
        i += 1;
        assert(script@ =~= before + quoted_args(all.take(i as int)));
    }
    assert(all.take(i as int) =~= all);
}

/// A script that runs the firewall command once for each batch, and stops at the
/// first that fails.
pub fn build_firewall_script(batches: &[Vec<String>]) -> (r: String)
    ensures
        r@ == script_of(batches.deep_view()),
{
    let mut script = "set -e\n".to_owned();
    let ghost all = batches.deep_view();
    let mut i: usize = 0;
    assert("set -e\n"@ + script_lines(all.take(0)) =~= "set -e\n"@);
    while i < batches.len()
        invariant
            i <= batches.len(),
            all == batches.deep_view(),
            script@ == "set -e\n"@ + script_lines(all.take(i as int)),
        decreases batches.len() - i,
    {
        proof {
            let next = all.take(i as int + 1);
            assert(next.drop_last() =~= all.take(i as int));
            assert(next.last() == batches[i as int].deep_view());
        }
        let ghost now = script@;
        script.append(FIREWALL_CMD);
        push_args(&mut script, &batches[i]);
        script.push('\n');
        i += 1;
        assert(script@ =~= "set -e\n"@ + script_lines(all.take(i as int)));
    }
    assert(all.take(i as int) =~= all);
    script
}

// ---------------------------------------------------------------------------
// How a shell reads the script
// ---------------------------------------------------------------------------

/// What a shell reads as the first word of `s`, and what it leaves: text between
/// single quotes stands for itself, a backslash outside of quotes takes the next
/// character as it is, and the word ends at white space or at the end. Any other
/// character outside of quotes is read by other rules, and is no word here.
pub open spec fn read_word(s: Seq<char>) -> Option<(Seq<char>, Seq<char>)>
    decreases s.len(),
{
    if s.len() == 0 || s[0] == ' ' || s[0] == '\n' {
        Some((Seq::empty(), s))
    } else if s[0] == '\'' {
        read_quoted(s.skip(1))
    } else if s[0] == '\\' && s.len() > 1 {
        match read_word(s.skip(2)) {
            Some((w, rest)) => Some((seq![s[1]] + w, rest)),
            None => None,
        }
    } else {
        None
    }
}

/// What a shell reads inside of single quotes and behind them.
pub open spec fn read_quoted(s: Seq<char>) -> Option<(Seq<char>, Seq<char>)>
    decreases s.len(),
{
    if s.len() == 0 {
        None
    } else if s[0] == '\'' {
        read_word(s.skip(1))
    } else {
        match read_quoted(s.skip(1)) {
            Some((w, rest)) => Some((seq![s[0]] + w, rest)),
            None => None,
        }
    }
}

/// The words of a command up to its end, and what follows its line.
pub open spec fn read_args(s: Seq<char>) -> Option<(Seq<Seq<char>>, Seq<char>)>
    decreases s.len(),
    via read_args_shrinks
{
    if s.len() == 0 {
        None
    } else if s[0] == '\n' {
        Some((Seq::empty(), s.skip(1)))
    } else if s[0] == ' ' {
        match read_word(s.skip(1)) {
            Some((w, rest)) => match read_args(rest) {
                Some((more, end)) => Some((seq![w] + more, end)),
                None => None,
            },
            None => None,
        }
    } else {
        None
    }
}

#[via_fn]
proof fn read_args_shrinks(s: Seq<char>) {
    if s.len() > 0 && s[0] == ' ' {
        lemma_read_word_shrinks(s.skip(1));
    }
}

/// Reading leaves no more than there was.
proof fn lemma_read_word_shrinks(s: Seq<char>)
    ensures
        read_word(s) matches Some((_, rest)) ==> rest.len() <= s.len(),
    decreases s.len(), 1int,
{
    if s.len() == 0 || s[0] == ' ' || s[0] == '\n' {
    } else if s[0] == '\'' {
        lemma_read_quoted_shrinks(s.skip(1));
    } else if s[0] == '\\' && s.len() > 1 {
        lemma_read_word_shrinks(s.skip(2));
    }
}

proof fn lemma_read_quoted_shrinks(s: Seq<char>)
    ensures
        read_quoted(s) matches Some((_, rest)) ==> rest.len() <= s.len(),
    decreases s.len(), 0int,
{
    if s.len() == 0 {
    } else if s[0] == '\'' {
        lemma_read_word_shrinks(s.skip(1));
    } else {
        lemma_read_quoted_shrinks(s.skip(1));
    }
}

/// The front of a requoted text.
proof fn lemma_requoted_front(s: Seq<char>)
    requires
        s.len() > 0,
    ensures
        requoted(s) == (if s[0] == '\'' {
            seq!['\'', '\\', '\'', '\'']
        } else {
            seq![s[0]]
        }) + requoted(s.skip(1)),
    decreases s.len(),
{
    let front = if s[0] == '\'' {
        seq!['\'', '\\', '\'', '\'']
    } else {
        seq![s[0]]
    };
    if s.len() == 1 {
        assert(s.drop_last() =~= Seq::<char>::empty());
        assert(s.skip(1) =~= Seq::<char>::empty());
        assert(requoted(s) =~= front + requoted(s.skip(1)));
    } else {
        lemma_requoted_front(s.drop_last());
        assert(s.drop_last().skip(1) =~= s.skip(1).drop_last());
        assert(s.skip(1).last() == s.last());
        assert(requoted(s) =~= front + requoted(s.skip(1)));
    }
}

/// Inside of quotes a requoted text reads as the text.
proof fn lemma_read_requoted(arg: Seq<char>, rest: Seq<char>)
    requires
        rest.len() == 0 || rest[0] == ' ' || rest[0] == '\n',
    ensures
        read_quoted(requoted(arg) + seq!['\''] + rest) == Some((arg, rest)),
    decreases arg.len(),
{
    let s = requoted(arg) + seq!['\''] + rest;
    if arg.len() == 0 {
        assert(requoted(arg) =~= Seq::<char>::empty());
        assert(s.skip(1) =~= rest);
        assert(arg =~= Seq::<char>::empty());
        assert(read_word(rest) == Some((arg, rest)));
        assert(s[0] == '\'');
        assert(read_quoted(s) == read_word(rest));
    } else {
        let more = arg.skip(1);
        let t = requoted(more) + seq!['\''] + rest;
        lemma_requoted_front(arg);
        lemma_read_requoted(more, rest);
        assert(seq![arg[0]] + more =~= arg);
        if arg[0] == '\'' {
            assert(s =~= seq!['\'', '\\', '\'', '\''] + t);
            // The quote closes, the escaped quote is taken, and a new one opens.
            let a = s.skip(1);
            assert(a =~= seq!['\\', '\'', '\''] + t);
            let b = a.skip(2);
            assert(b =~= seq!['\''] + t);
            assert(b.skip(1) =~= t);
            assert(read_word(b) == Some((more, rest)));
            assert(read_word(a) == Some((seq!['\''] + more, rest)));
            assert(s[0] == '\'');
            assert(read_quoted(s) == read_word(a));
        } else {
            assert(s =~= seq![arg[0]] + t);
            assert(s.skip(1) =~= t);
            assert(s[0] == arg[0]);
            assert(read_quoted(s) == Some((seq![arg[0]] + more, rest)));
        }
    }
}

/// A quoted text is one word of a shell, and its value is the text, whatever
/// characters the text holds.
pub proof fn law_quoting(arg: Seq<char>, rest: Seq<char>)
    requires
        rest.len() == 0 || rest[0] == ' ' || rest[0] == '\n',
    ensures
        read_word(quoted(arg) + rest) == Some((arg, rest)),
{
    let s = quoted(arg) + rest;
    assert(s.skip(1) =~= requoted(arg) + seq!['\''] + rest);
    lemma_read_requoted(arg, rest);
}

/// The front of quoted arguments.
proof fn lemma_quoted_args_front(args: Seq<Seq<char>>)
    requires
        args.len() > 0,
    ensures
        quoted_args(args) == seq![' '] + quoted(args[0]) + quoted_args(args.skip(1)),
    decreases args.len(),
{
    if args.len() == 1 {
        assert(args.drop_last() =~= Seq::<Seq<char>>::empty());
        assert(args.skip(1) =~= Seq::<Seq<char>>::empty());
        assert(quoted_args(args) =~= seq![' '] + quoted(args[0]) + quoted_args(args.skip(1)));
    } else {
        lemma_quoted_args_front(args.drop_last());
        assert(args.drop_last().skip(1) =~= args.skip(1).drop_last());
        assert(args.skip(1).last() == args.last());
        assert(quoted_args(args) =~= seq![' '] + quoted(args[0]) + quoted_args(args.skip(1)));
    }
}

/// A line of the script gives a shell exactly the arguments of its batch, and
/// nothing of them runs over into what follows.
pub proof fn law_script_line(args: Seq<Seq<char>>, rest: Seq<char>)
    ensures
        read_args(quoted_args(args) + seq!['\n'] + rest) == Some((args, rest)),
    decreases args.len(),
{
    let s = quoted_args(args) + seq!['\n'] + rest;
    if args.len() == 0 {
        assert(quoted_args(args) =~= Seq::<char>::empty());
        assert(s.skip(1) =~= rest);
        assert(args =~= Seq::<Seq<char>>::empty());
    } else {
        let more = args.skip(1);
        let t = quoted_args(more) + seq!['\n'] + rest;
        lemma_quoted_args_front(args);
        law_script_line(more, rest);
        assert(s =~= seq![' '] + (quoted(args[0]) + t));
        assert(s.skip(1) =~= quoted(args[0]) + t);
        assert(t.len() > 0 && (t[0] == ' ' || t[0] == '\n')) by {
            if more.len() > 0 {
                lemma_quoted_args_front(more);
            } else {
                assert(quoted_args(more) =~= Seq::<char>::empty());
            }
        }
        law_quoting(args[0], t);
        assert(seq![args[0]] + more =~= args);
    }
}

/// Whether a text runs command lines of the firewall, each on a line of its own, and
/// nothing else.
pub open spec fn runs_lines(s: Seq<char>, batches: Seq<Seq<Seq<char>>>) -> bool
    decreases batches.len(),
{
    if batches.len() == 0 {
        s.len() == 0
    } else {
        s.len() >= 12 && s.take(12) == "firewall-cmd"@ && (read_args(s.skip(12)) matches Some(
            (args, rest),
        ) && args == batches[0] && runs_lines(rest, batches.skip(1)))
    }
}

proof fn lemma_script_front(batches: Seq<Seq<Seq<char>>>)
    requires
        batches.len() > 0,
    ensures
        script_lines(batches) == "firewall-cmd"@ + quoted_args(batches[0]) + seq!['\n']
            + script_lines(batches.skip(1)),
    decreases batches.len(),
{
    let less = batches.drop_last();
    let more = batches.skip(1);
    let none = Seq::<Seq<Seq<char>>>::empty();
    if batches.len() == 1 {
        assert(less =~= none);
        assert(more =~= none);
        assert(script_lines(none) =~= Seq::<char>::empty());
        assert(script_lines(batches) =~= "firewall-cmd"@ + quoted_args(batches[0]) + seq!['\n']
            + script_lines(more));
    } else {
        lemma_script_front(less);
        assert(less[0] == batches[0]);
        assert(less.skip(1) =~= more.drop_last());
        assert(more.last() == batches.last());
        assert(script_lines(batches) =~= "firewall-cmd"@ + quoted_args(batches[0]) + seq!['\n']
            + script_lines(more));
    }
}

proof fn lemma_runs_lines(batches: Seq<Seq<Seq<char>>>)
    ensures
        runs_lines(script_lines(batches), batches),
    decreases batches.len(),
{
    if batches.len() > 0 {
        let more = batches.skip(1);
        let s = script_lines(batches);
        lemma_script_front(batches);
        lemma_runs_lines(more);
        reveal_strlit("firewall-cmd");
        law_script_line(batches[0], script_lines(more));
        assert(s.take(12) =~= "firewall-cmd"@);
        assert(s.skip(12) =~= quoted_args(batches[0]) + seq!['\n'] + script_lines(more));
    }
}

/// The script stops at the first command that fails, and its shell runs exactly the
/// given command lines of the firewall, in order.
pub proof fn law_script_runs_the_commands(batches: Seq<Seq<Seq<char>>>)
    ensures
        script_of(batches).len() >= 7,
        script_of(batches).take(7) == "set -e\n"@,
        runs_lines(script_of(batches).skip(7), batches),
{
    reveal_strlit("set -e\n");
    lemma_runs_lines(batches);
    assert(script_of(batches).take(7) =~= "set -e\n"@);
    assert(script_of(batches).skip(7) =~= script_lines(batches));
}

} // verus!
