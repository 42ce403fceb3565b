//! How texts stand in shell commands, and how a shell reads them.
use vstd::prelude::*;
use vstd::string::*;
use crate::text;

verus! {

/// A value as it stands between single quotes in a shell script: every single
/// quote ends the quotes, stands behind a backslash, and opens them again.
pub open spec fn shell_escaped(value: Seq<char>) -> Seq<char>
    decreases value.len(),
{
    if value.len() == 0 {
        Seq::empty()
    } else if value.last() == '\'' {
        shell_escaped(value.drop_last()) + seq!['\'', '\\', '\'', '\'']
    } else {
        shell_escaped(value.drop_last()).push(value.last())
    }
}

/// Escapes a value for single quotes in a shell script.
pub fn shell_escape(value: &str) -> (r: String)
    ensures
        r@ == shell_escaped(value@),
{
    let mut r = String::new();
    for c in it: value.chars()
        invariant
            it.seq() == value@,
            r@ == shell_escaped(value@.take(it.index())),
    {
        let ghost before = r@;
        proof {
            assert(value@.take(it.index() + 1).drop_last() =~= value@.take(it.index()));
        }
        if c == '\'' {
            r.push('\'');
            r.push('\\');
            r.push('\'');
            r.push('\'');
            proof {
                assert(r@ =~= before + seq!['\'', '\\', '\'', '\'']);
            }
        } else {
            r.push(c);
        }
    }
    proof {
        assert(value@.take(value@.len() as int) =~= value@);
    }
    r
}

/// A value as one word of a shell command, in single quotes.
pub open spec fn quoted_word(value: Seq<char>) -> Seq<char> {
    "'"@ + shell_escaped(value) + "'"@
}

/// Puts a value into single quotes, as one word of a shell command.
pub fn quote_word(value: &str) -> (r: String)
    ensures
        r@ == quoted_word(value@),
{
    "'".to_owned().concat(shell_escape(value).as_str()).concat("'")
}

/// What a shell makes of a word outside of quotes: a quote opens a quoted part,
/// and a backslash keeps the character behind it as it is. Any other character
/// is outside of what is modelled here.
pub open spec fn shell_word(s: Seq<char>) -> Option<Seq<char>>
    decreases s.len(),
{
    if s.len() == 0 {
        Some(Seq::empty())
    } else if s[0] == '\'' {
        shell_quoted(s.drop_first())
    } else if s[0] == '\\' && s.len() > 1 {
        match shell_word(s.skip(2)) {
            Some(rest) => Some(seq![s[1]] + rest),
            None => None,
        }
    } else {
        None
    }
}

/// What a shell makes of a word inside of single quotes: every character up to
/// the next quote stands for itself.
pub open spec fn shell_quoted(s: Seq<char>) -> Option<Seq<char>>
    decreases s.len(),
{
    if s.len() == 0 {
        None
    } else if s[0] == '\'' {
        shell_word(s.drop_first())
    } else {
        match shell_quoted(s.drop_first()) {
            Some(rest) => Some(seq![s[0]] + rest),
            None => None,
        }
    }
}

/// The shell reads every value back as it was: nothing in a value ends the
/// quotes or runs as a command.
pub proof fn shell_reads_value_back(value: Seq<char>)
    ensures
        shell_word(quoted_word(value)) == Some(value),
{
    reveal_strlit("'");
    let word = quoted_word(value);
    lemma_quoted_reads_back(value, Seq::empty());
    assert(word[0] == '\'');
    assert(word.drop_first() =~= shell_escaped(value) + seq!['\''] + Seq::<char>::empty());
    assert(shell_word(Seq::<char>::empty()) == Some(Seq::<char>::empty()));
    assert(value + Seq::<char>::empty() =~= value);
}

/// The escaping goes character by character from the front as well.
proof fn lemma_escaped_front(value: Seq<char>)
    requires
        value.len() > 0,
    ensures
        shell_escaped(value) == (if value[0] == '\'' {
            seq!['\'', '\\', '\'', '\'']
        } else {
            seq![value[0]]
        }) + shell_escaped(value.drop_first()),
    decreases value.len(),
{
    let first = if value[0] == '\'' {
        seq!['\'', '\\', '\'', '\'']
    } else {
        seq![value[0]]
    };
    if value.len() == 1 {
        assert(value.drop_last() =~= Seq::empty());
        assert(value.drop_first() =~= Seq::empty());
        assert(shell_escaped(Seq::<char>::empty()) =~= Seq::empty());
        assert(shell_escaped(value) =~= first + shell_escaped(value.drop_first()));
    } else {
        lemma_escaped_front(value.drop_last());
        assert(value.drop_last().drop_first() =~= value.drop_first().drop_last());
        assert(shell_escaped(value) =~= first + shell_escaped(value.drop_first()));
    }
}

proof fn lemma_quoted_reads_back(value: Seq<char>, rest: Seq<char>)
    ensures
        shell_quoted(shell_escaped(value) + seq!['\''] + rest) == (match shell_word(rest) {
            Some(tail) => Some(value + tail),
            None => None,
        }),
    decreases value.len(),
{
    let whole = shell_escaped(value) + seq!['\''] + rest;
    if value.len() == 0 {
        assert(whole.drop_first() =~= rest);
        assert(whole[0] == '\'');
        assert(shell_quoted(whole) == shell_word(rest));
        if let Some(tail) = shell_word(rest) {
            assert(value + tail =~= tail);
        }
    } else {
        let later = value.drop_first();
        let after = shell_escaped(later) + seq!['\''] + rest;
        lemma_escaped_front(value);
        lemma_quoted_reads_back(later, rest);
        if value[0] == '\'' {
            assert(whole =~= seq!['\'', '\\', '\'', '\''] + after);
            assert(whole[0] == '\'');
            let w1 = whole.drop_first();
            assert(w1[0] == '\\' && w1[1] == '\'');
            let w2 = w1.skip(2);
            assert(w2[0] == '\'');
            assert(w2.drop_first() =~= after);
            assert(shell_quoted(whole) == shell_word(w1));
            assert(shell_word(w2) == shell_quoted(after));
            assert(shell_word(w1) == (match shell_word(w2) {
                Some(tail) => Some(seq!['\''] + tail),
                None => None,
            }));
            if let Some(tail) = shell_word(rest) {
                assert(seq!['\''] + (later + tail) =~= value + tail);
            }
        } else {
            assert(whole =~= seq![value[0]] + after);
            assert(whole.drop_first() =~= after);
            assert(shell_quoted(whole) == (match shell_quoted(after) {
                Some(tail) => Some(seq![value[0]] + tail),
                None => None,
            }));
            if let Some(tail) = shell_word(rest) {
                assert(seq![value[0]] + (later + tail) =~= value + tail);
            }
        }
    }
}

// ---------------------------------------------------------------------------
// Words
// ---------------------------------------------------------------------------

/// Whether a character stands for itself in a shell command without quotes. There
/// are others that do; these are the ones modelled here.
pub open spec fn plain_char(c: char) -> bool {
    ||| 'a' <= c <= 'z'
    ||| 'A' <= c <= 'Z'
    ||| '0' <= c <= '9'
    ||| c == '/'
    ||| c == '-'
    ||| c == '_'
    ||| c == '.'
}

/// Whether a text is made of characters that stand for themselves.
pub open spec fn plain_text(s: Seq<char>) -> bool {
    forall|i: int| 0 <= i < s.len() ==> plain_char(#[trigger] s[i])
}

/// The words of a list with one more before them, if there is one.
pub open spec fn with_word(word: Option<Seq<char>>, later: Option<Seq<Seq<char>>>) -> Option<
    Seq<Seq<char>>,
> {
    match (word, later) {
        (Some(w), Some(ws)) => Some(seq![w] + ws),
        (None, Some(ws)) => Some(ws),
        (_, None) => None,
    }
}

/// The words into which a shell splits a command, given the word that has begun
/// before it. A blank ends a word, a quote opens a quoted part, and a backslash
/// keeps the character behind it as it is. `None` stands for a command that is
/// outside of what is modelled here.
pub open spec fn words_from(s: Seq<char>, word: Option<Seq<char>>) -> Option<Seq<Seq<char>>>
    decreases s.len(),
{
    let begun = match word {
        Some(w) => w,
        None => Seq::empty(),
    };
    if s.len() == 0 {
        with_word(word, Some(Seq::empty()))
    } else if s[0] == ' ' {
        with_word(word, words_from(s.drop_first(), None))
    } else if s[0] == '\'' {
        words_in_quotes(s.drop_first(), begun)
    } else if s[0] == '\\' && s.len() > 1 {
        words_from(s.skip(2), Some(begun.push(s[1])))
    } else if plain_char(s[0]) {
        words_from(s.drop_first(), Some(begun.push(s[0])))
    } else {
        None
    }
}

/// The words into which a shell splits a command that begins inside of single
/// quotes: every character up to the next quote belongs to the word.
pub open spec fn words_in_quotes(s: Seq<char>, word: Seq<char>) -> Option<Seq<Seq<char>>>
    decreases s.len(),
{
    if s.len() == 0 {
        None
    } else if s[0] == '\'' {
        words_from(s.drop_first(), Some(word))
    } else {
        words_in_quotes(s.drop_first(), word.push(s[0]))
    }
}

/// The words into which a shell splits a command.
pub open spec fn shell_words(s: Seq<char>) -> Option<Seq<Seq<char>>> {
    words_from(s, None)
}

proof fn lemma_words_quoted(value: Seq<char>, rest: Seq<char>, word: Seq<char>)
    ensures
        words_in_quotes(shell_escaped(value) + seq!['\''] + rest, word) == words_from(
            rest,
            Some(word + value),
        ),
    decreases value.len(),
{
    let whole = shell_escaped(value) + seq!['\''] + rest;
    if value.len() == 0 {
        assert(whole.drop_first() =~= rest);
        assert(whole[0] == '\'');
        assert(word + value =~= word);
    } else {
        let later = value.drop_first();
        let after = shell_escaped(later) + seq!['\''] + rest;
        let longer = word.push(value[0]);
        lemma_escaped_front(value);
        lemma_words_quoted(later, rest, longer);
        assert(longer + later =~= word + value);
        if value[0] == '\'' {
            assert(whole =~= seq!['\'', '\\', '\'', '\''] + after);
            let w1 = whole.drop_first();
            let w2 = w1.skip(2);
            assert(whole[0] == '\'');
            assert(w1[0] == '\\' && w1[1] == '\'');
            assert(w2[0] == '\'');
            assert(w2.drop_first() =~= after);
            assert(words_in_quotes(whole, word) == words_from(w1, Some(word)));
            assert(words_from(w1, Some(word)) == words_from(w2, Some(longer)));
            assert(words_from(w2, Some(longer)) == words_in_quotes(after, longer));
        } else {
            assert(whole =~= seq![value[0]] + after);
            assert(whole.drop_first() =~= after);
            assert(words_in_quotes(whole, word) == words_in_quotes(after, longer));
        }
    }
}

/// A quoted value that is followed by a blank is one word.
pub proof fn quoted_value_is_one_word(value: Seq<char>, rest: Seq<char>)
    ensures
        shell_words(quoted_word(value) + " "@ + rest) == with_word(Some(value), shell_words(rest)),
{
    reveal_strlit("'");
    reveal_strlit(" ");
    let behind = " "@ + rest;
    let whole = quoted_word(value) + " "@ + rest;
    lemma_words_quoted(value, behind, Seq::empty());
    assert(whole[0] == '\'');
    assert(whole.drop_first() =~= shell_escaped(value) + seq!['\''] + behind);
    assert(words_from(whole, None) == words_in_quotes(whole.drop_first(), Seq::empty()));
    assert(Seq::<char>::empty() + value =~= value);
    assert(behind.drop_first() =~= rest);
}

proof fn lemma_words_plain(text: Seq<char>, rest: Seq<char>, word: Option<Seq<char>>)
    requires
        plain_text(text),
        text.len() > 0,
    ensures
        words_from(text + rest, word) == words_from(
            rest,
            Some(
                match word {
                    Some(w) => w + text,
                    None => text,
                },
            ),
        ),
    decreases text.len(),
{
    let whole = text + rest;
    let later = text.drop_first();
    let begun = match word {
        Some(w) => w,
        None => Seq::empty(),
    };
    let longer = begun.push(text[0]);
    assert(whole[0] == text[0] && plain_char(text[0]));
    assert(whole.drop_first() =~= later + rest);
    assert(words_from(whole, word) == words_from(later + rest, Some(longer)));
    assert(longer + later =~= begun + text);
    assert(Seq::<char>::empty() + text =~= text);
    if later.len() > 0 {
        assert forall|i: int| 0 <= i < later.len() implies plain_char(#[trigger] later[i]) by {
            assert(later[i] == text[i + 1]);
        }
        lemma_words_plain(later, rest, Some(longer));
    } else {
        assert(later + rest =~= rest);
        assert(longer + later =~= longer);
    }
}

/// A plain text that is followed by a blank is one word.
pub proof fn plain_text_is_one_word(text: Seq<char>, rest: Seq<char>)
    requires
        plain_text(text),
        text.len() > 0,
    ensures
        shell_words(text + " "@ + rest) == with_word(Some(text), shell_words(rest)),
        shell_words(text) == Some(seq![text]),
{
    reveal_strlit(" ");
    let behind = " "@ + rest;
    assert(text + " "@ + rest =~= text + behind);
    lemma_words_plain(text, behind, None);
    assert(behind.drop_first() =~= rest);
    lemma_words_plain(text, Seq::empty(), None);
    assert(text + Seq::<char>::empty() =~= text);
    assert(words_from(Seq::<char>::empty(), Some(text)) == Some(
        seq![text] + Seq::<Seq<char>>::empty(),
    ));
    assert(seq![text] + Seq::<Seq<char>>::empty() =~= seq![text]);
}

/// Quoted values that are joined by blanks are read back one by one, whatever
/// they hold, and what comes behind them is read on its own.
pub proof fn quoted_values_are_read_back(values: Seq<Seq<char>>, rest: Seq<char>)
    ensures
        shell_words(
            text::joined(values.map_values(|v: Seq<char>| quoted_word(v)), " "@) + " "@ + rest,
        ) == (match shell_words(rest) {
            Some(later) => Some(values + later),
            None => None,
        }),
    decreases values.len(),
{
    let quoted = values.map_values(|v: Seq<char>| quoted_word(v));
    let command = text::joined(quoted, " "@) + " "@ + rest;
    if values.len() == 0 {
        reveal_strlit(" ");
        assert(command.drop_first() =~= rest);
        assert(command[0] == ' ');
        if let Some(later) = shell_words(rest) {
            assert(values + later =~= later);
        }
    } else {
        let last = values.last();
        let tail = quoted_word(last) + " "@ + rest;
        quoted_value_is_one_word(last, rest);
        if values.len() == 1 {
            assert(command =~= tail);
            if let Some(later) = shell_words(rest) {
                assert(values + later =~= seq![last] + later);
            }
        } else {
            let front = values.drop_last();
            let quoted_front = front.map_values(|v: Seq<char>| quoted_word(v));
            assert(quoted.drop_last() =~= quoted_front);
            quoted_values_are_read_back(front, tail);
            assert(command =~= text::joined(quoted_front, " "@) + " "@ + tail);
            if let Some(later) = shell_words(rest) {
                assert(front + (seq![last] + later) =~= values + later);
            }
        }
    }
}

// ---------------------------------------------------------------------------
// Scripts
// ---------------------------------------------------------------------------

/// Whether a character stands for itself in a word of a script that is not in
/// quotes. There are others that do; these are the ones modelled here.
pub open spec fn script_char(c: char) -> bool {
    plain_char(c) || c == '='
}

/// The commands of a script, each with its words, given the words of the command
/// that has begun before it and the word that has. A line break ends a command, a
/// blank ends a word, a quote opens a quoted part, a backslash keeps the character
/// behind it as it is, and a line that begins with `#` is a comment. `None` stands
/// for a script that is outside of what is modelled here.
pub open spec fn commands_from(
    s: Seq<char>,
    words: Seq<Seq<char>>,
    word: Option<Seq<char>>,
) -> Option<Seq<Seq<Seq<char>>>>
    decreases s.len(),
{
    let begun = match word {
        Some(w) => w,
        None => Seq::empty(),
    };
    let done = match word {
        Some(w) => words.push(w),
        None => words,
    };
    if s.len() == 0 {
        with_command(done, Some(Seq::empty()))
    } else if s[0] == '\n' {
        with_command(done, commands_from(s.drop_first(), Seq::empty(), None))
    } else if s[0] == ' ' {
        commands_from(s.drop_first(), done, None)
    } else if s[0] == '#' && done.len() == 0 {
        commands_in_comment(s.drop_first())
    } else if s[0] == '\'' {
        commands_in_quotes(s.drop_first(), words, begun)
    } else if s[0] == '\\' && s.len() > 1 && s[1] != '\n' {
        commands_from(s.skip(2), words, Some(begun.push(s[1])))
    } else if script_char(s[0]) {
        commands_from(s.drop_first(), words, Some(begun.push(s[0])))
    } else {
        None
    }
}

/// The commands of a script that begins inside of single quotes: every character
/// up to the next quote belongs to the word.
pub open spec fn commands_in_quotes(
    s: Seq<char>,
    words: Seq<Seq<char>>,
    word: Seq<char>,
) -> Option<Seq<Seq<Seq<char>>>>
    decreases s.len(),
{
    if s.len() == 0 {
        None
    } else if s[0] == '\'' {
        commands_from(s.drop_first(), words, Some(word))
    } else {
        commands_in_quotes(s.drop_first(), words, word.push(s[0]))
    }
}

/// The commands of a script that begins inside of a comment.
pub open spec fn commands_in_comment(s: Seq<char>) -> Option<Seq<Seq<Seq<char>>>>
    decreases s.len(),
{
    if s.len() == 0 {
        Some(Seq::empty())
    } else if s[0] == '\n' {
        commands_from(s.drop_first(), Seq::empty(), None)
    } else {
        commands_in_comment(s.drop_first())
    }
}

/// The commands of a list with one more before them, unless it has no words.
pub open spec fn with_command(
    command: Seq<Seq<char>>,
    later: Option<Seq<Seq<Seq<char>>>>,
) -> Option<Seq<Seq<Seq<char>>>> {
    match later {
        Some(commands) => if command.len() == 0 {
            Some(commands)
        } else {
            Some(seq![command] + commands)
        },
        None => None,
    }
}

/// The commands of a script, each with its words.
pub open spec fn script_commands(s: Seq<char>) -> Option<Seq<Seq<Seq<char>>>> {
    commands_from(s, Seq::empty(), None)
}

/// A comment says nothing.
pub proof fn comment_is_skipped(comment: Seq<char>, rest: Seq<char>)
    requires
        !comment.contains('\n'),
    ensures
        script_commands("#"@ + comment + "\n"@ + rest) == script_commands(rest),
{
    reveal_strlit("#");
    reveal_strlit("\n");
    let whole = "#"@ + comment + "\n"@ + rest;
    assert(whole[0] == '#');
    assert(whole.drop_first() =~= comment + "\n"@ + rest);
    lemma_comment(comment, rest);
}

proof fn lemma_comment(comment: Seq<char>, rest: Seq<char>)
    requires
        !comment.contains('\n'),
    ensures
        commands_in_comment(comment + "\n"@ + rest) == script_commands(rest),
    decreases comment.len(),
{
    reveal_strlit("\n");
    let whole = comment + "\n"@ + rest;
    if comment.len() == 0 {
        assert(whole[0] == '\n');
        assert(whole.drop_first() =~= rest);
    } else {
        let later = comment.drop_first();
        assert(comment.contains(comment[0]));
        assert(!later.contains('\n')) by {
            if later.contains('\n') {
                let i = choose|i: int| 0 <= i < later.len() && later[i] == '\n';
                assert(comment[i + 1] == '\n');
            }
        }
        assert(whole[0] == comment[0]);
        assert(whole.drop_first() =~= later + "\n"@ + rest);
        lemma_comment(later, rest);
    }
}

/// Whether a text is made of characters that stand for themselves in a script.
pub open spec fn script_text(s: Seq<char>) -> bool {
    forall|i: int| 0 <= i < s.len() ==> script_char(#[trigger] s[i])
}

proof fn lemma_commands_plain(
    text: Seq<char>,
    rest: Seq<char>,
    words: Seq<Seq<char>>,
    word: Option<Seq<char>>,
)
    requires
        script_text(text),
        text.len() > 0,
    ensures
        commands_from(text + rest, words, word) == commands_from(
            rest,
            words,
            Some(
                match word {
                    Some(w) => w + text,
                    None => text,
                },
            ),
        ),
    decreases text.len(),
{
    let whole = text + rest;
    let later = text.drop_first();
    let begun = match word {
        Some(w) => w,
        None => Seq::empty(),
    };
    let longer = begun.push(text[0]);
    assert(whole[0] == text[0] && script_char(text[0]));
    assert(whole.drop_first() =~= later + rest);
    assert(commands_from(whole, words, word) == commands_from(later + rest, words, Some(longer)));
    assert(longer + later =~= begun + text);
    assert(Seq::<char>::empty() + text =~= text);
    if later.len() > 0 {
        assert forall|i: int| 0 <= i < later.len() implies script_char(#[trigger] later[i]) by {
            assert(later[i] == text[i + 1]);
        }
        lemma_commands_plain(later, rest, words, Some(longer));
    } else {
        assert(later + rest =~= rest);
        assert(longer + later =~= longer);
    }
}

proof fn lemma_commands_quoted(
    value: Seq<char>,
    rest: Seq<char>,
    words: Seq<Seq<char>>,
    word: Seq<char>,
)
    ensures
        commands_in_quotes(shell_escaped(value) + seq!['\''] + rest, words, word) == commands_from(
            rest,
            words,
            Some(word + value),
        ),
    decreases value.len(),
{
    let whole = shell_escaped(value) + seq!['\''] + rest;
    if value.len() == 0 {
        assert(whole.drop_first() =~= rest);
        assert(whole[0] == '\'');
        assert(word + value =~= word);
    } else {
        let later = value.drop_first();
        let after = shell_escaped(later) + seq!['\''] + rest;
        let longer = word.push(value[0]);
        lemma_escaped_front(value);
        lemma_commands_quoted(later, rest, words, longer);
        assert(longer + later =~= word + value);
        if value[0] == '\'' {
            assert(whole =~= seq!['\'', '\\', '\'', '\''] + after);
            let w1 = whole.drop_first();
            let w2 = w1.skip(2);
            assert(whole[0] == '\'');
            assert(w1[0] == '\\' && w1[1] == '\'');
            assert(w2[0] == '\'');
            assert(w2.drop_first() =~= after);
            assert(commands_in_quotes(whole, words, word) == commands_from(w1, words, Some(word)));
            assert(commands_from(w1, words, Some(word)) == commands_from(w2, words, Some(longer)));
            assert(commands_from(w2, words, Some(longer)) == commands_in_quotes(
                after,
                words,
                longer,
            ));
        } else {
            assert(whole =~= seq![value[0]] + after);
            assert(whole.drop_first() =~= after);
            assert(commands_in_quotes(whole, words, word) == commands_in_quotes(
                after,
                words,
                longer,
            ));
        }
    }
}

/// A line of plain words is a command with these words.
pub proof fn plain_line_is_a_command(words: Seq<Seq<char>>, rest: Seq<char>)
    requires
        words.len() > 0,
        forall|i: int|
            0 <= i < words.len() ==> (#[trigger] words[i]).len() > 0 && script_text(words[i]),
    ensures
        script_commands(text::joined(words, " "@) + "\n"@ + rest) == with_command(
            words,
            script_commands(rest),
        ),
{
    lemma_line(Seq::empty(), words, rest);
    assert(Seq::<Seq<char>>::empty() + words =~= words);
}

proof fn lemma_line(before: Seq<Seq<char>>, words: Seq<Seq<char>>, rest: Seq<char>)
    requires
        words.len() > 0,
        forall|i: int|
            0 <= i < words.len() ==> (#[trigger] words[i]).len() > 0 && script_text(words[i]),
    ensures
        commands_from(text::joined(words, " "@) + "\n"@ + rest, before, None) == with_command(
            before + words,
            script_commands(rest),
        ),
    decreases words.len(),
{
    reveal_strlit(" ");
    reveal_strlit("\n");
    let line = text::joined(words, " "@) + "\n"@ + rest;
    let first = words[0];
    if words.len() == 1 {
        let behind = "\n"@ + rest;
        assert(line =~= first + behind);
        lemma_commands_plain(first, behind, before, None);
        assert(behind[0] == '\n');
        assert(behind.drop_first() =~= rest);
        assert(before.push(first) =~= before + words);
    } else {
        let later = words.drop_first();
        lemma_joined_front(words);
        let behind = " "@ + (text::joined(later, " "@) + "\n"@ + rest);
        assert(line =~= first + behind);
        lemma_commands_plain(first, behind, before, None);
        assert(behind[0] == ' ');
        assert(behind.drop_first() =~= text::joined(later, " "@) + "\n"@ + rest);
        assert forall|i: int| 0 <= i < later.len() implies (#[trigger] later[i]).len() > 0
            && script_text(later[i]) by {
            assert(later[i] == words[i + 1]);
        }
        lemma_line(before.push(first), later, rest);
        assert(before.push(first) + later =~= before + words);
    }
}

proof fn lemma_joined_front(words: Seq<Seq<char>>)
    requires
        words.len() > 1,
    ensures
        text::joined(words, " "@) == words[0] + " "@ + text::joined(words.drop_first(), " "@),
    decreases words.len(),
{
    let later = words.drop_first();
    if words.len() == 2 {
        assert(words.drop_last() =~= seq![words[0]]);
        assert(later =~= seq![words[1]]);
        assert(text::joined(seq![words[0]], " "@) == words[0]);
        assert(text::joined(seq![words[1]], " "@) == words[1]);
    } else {
        lemma_joined_front(words.drop_last());
        assert(words.drop_last().drop_first() =~= later.drop_last());
        assert(text::joined(words, " "@) =~= words[0] + " "@ + text::joined(later, " "@));
    }
}

/// A line of a plain word and a quoted value that is joined to a plain text is a
/// command of two words, whatever the value holds.
pub proof fn quoted_line_is_a_command(
    first: Seq<char>,
    plain: Seq<char>,
    value: Seq<char>,
    rest: Seq<char>,
)
    requires
        script_text(first),
        first.len() > 0,
        script_text(plain),
        plain.len() > 0,
    ensures
        script_commands(first + " "@ + plain + "'"@ + shell_escaped(value) + "'\n"@ + rest)
            == with_command(seq![first, plain + value], script_commands(rest)),
{
    reveal_strlit(" ");
    reveal_strlit("'");
    reveal_strlit("'\n");
    let none = Seq::<Seq<char>>::empty();
    let quoted = seq!['\''] + (shell_escaped(value) + seq!['\''] + (seq!['\n'] + rest));
    let second = plain + quoted;
    let line = first + " "@ + plain + "'"@ + shell_escaped(value) + "'\n"@ + rest;
    assert(line =~= first + (seq![' '] + second));
    lemma_commands_plain(first, seq![' '] + second, none, None);
    assert((seq![' '] + second).drop_first() =~= second);
    assert(none.push(first) =~= seq![first]);
    lemma_commands_plain(plain, quoted, seq![first], None);
    assert(quoted[0] == '\'');
    assert(quoted.drop_first() =~= shell_escaped(value) + seq!['\''] + (seq!['\n'] + rest));
    lemma_commands_quoted(value, seq!['\n'] + rest, seq![first], plain);
    assert((seq!['\n'] + rest).drop_first() =~= rest);
    assert(seq![first].push(plain + value) =~= seq![first, plain + value]);
}

} // verus!
