//! Chat transcripts, command-help requests and replies, and the framing of
//! streamed chat replies. Talking to the model server is the caller's part.

use vstd::prelude::*;

use crate::text::{chars_of, occurs_at, occurs_at_exec, owned, slice_chars, string_of, trim, trim_chars};

verus! {

/// `s` begins with `p`.
pub open spec fn starts_with(s: Seq<char>, p: Seq<char>) -> bool {
    p.len() <= s.len() && s.take(p.len() as int) == p
}

/// `s` ends with `p`.
pub open spec fn ends_with(s: Seq<char>, p: Seq<char>) -> bool {
    p.len() <= s.len() && s.skip(s.len() - p.len()) == p
}

/// `s` without all leading repetitions of `p` (`str::trim_start_matches`).
pub open spec fn strip_prefix_all(s: Seq<char>, p: Seq<char>) -> Seq<char>
    decreases s.len(),
{
    if p.len() > 0 && starts_with(s, p) {
        strip_prefix_all(s.skip(p.len() as int), p)
    } else {
        s
    }
}

/// `s` without all trailing repetitions of `p` (`str::trim_end_matches`).
pub open spec fn strip_suffix_all(s: Seq<char>, p: Seq<char>) -> Seq<char>
    decreases s.len(),
{
    if p.len() > 0 && ends_with(s, p) {
        strip_suffix_all(s.take(s.len() - p.len()), p)
    } else {
        s
    }
}

/// Position of the first line feed in `s`, or its length when there is none.
pub open spec fn line_end(s: Seq<char>) -> int
    decreases s.len(),
{
    if s.len() == 0 || s[0] == '\n' {
        0
    } else {
        1 + line_end(s.drop_first())
    }
}

pub proof fn lemma_line_end(s: Seq<char>)
    ensures
        0 <= line_end(s) <= s.len(),
        forall|j: int| 0 <= j < line_end(s) ==> s[j] != '\n',
        line_end(s) < s.len() ==> s[line_end(s)] == '\n',
    decreases s.len(),
{
    if s.len() > 0 && s[0] != '\n' {
        lemma_line_end(s.drop_first());
        assert forall|j: int| 0 <= j < line_end(s) implies s[j] != '\n' by {
            if j > 0 {
                assert(s[j] == s.drop_first()[j - 1]);
            }
        }
    }
}

/// A line without the carriage return of a CRLF ending.
pub open spec fn strip_cr(l: Seq<char>) -> Seq<char> {
    if l.len() > 0 && l.last() == '\r' {
        l.drop_last()
    } else {
        l
    }
}

/// The lines of `s` as `str::lines` yields them: split at line feeds, a
/// carriage return before a line feed dropped, no empty line after a final
/// line feed.
pub open spec fn lines_of(s: Seq<char>) -> Seq<Seq<char>>
    decreases s.len(),
{
    if s.len() == 0 {
        seq![]
    } else {
        let k = line_end(s);
        if k < s.len() {
            proof {
                lemma_line_end(s);
            }
            seq![strip_cr(s.take(k))] + lines_of(s.skip(k + 1))
        } else {
            seq![s]
        }
    }
}

/// The lines that hold more than whitespace.
pub open spec fn nonblank(ls: Seq<Seq<char>>) -> Seq<Seq<char>>
    decreases ls.len(),
{
    if ls.len() == 0 {
        seq![]
    } else if trim(ls.last()).len() > 0 {
        nonblank(ls.drop_last()).push(ls.last())
    } else {
        nonblank(ls.drop_last())
    }
}

/// The lines joined with single spaces.
pub open spec fn join_space(ls: Seq<Seq<char>>) -> Seq<char>
    decreases ls.len(),
{
    if ls.len() == 0 {
        seq![]
    } else if ls.len() == 1 {
        ls[0]
    } else {
        join_space(ls.drop_last()) + seq![' '] + ls.last()
    }
}

/// A model reply without surrounding whitespace and Markdown code fences.
pub open spec fn unfenced(raw: Seq<char>) -> Seq<char> {
    let a = strip_prefix_all(trim(raw), "```bash"@);
    let b = strip_prefix_all(a, "```sh"@);
    let c = strip_prefix_all(b, "```"@);
    trim(strip_suffix_all(c, "```"@))
}

/// The non-blank lines of a model reply.
pub open spec fn reply_lines(raw: Seq<char>) -> Seq<Seq<char>> {
    nonblank(lines_of(unfenced(raw)))
}

/// The suggested command: the first non-blank line, trimmed, without a
/// leading shell prompt `$`.
pub open spec fn suggested_command(raw: Seq<char>) -> Seq<char> {
    let ls = reply_lines(raw);
    let first = if ls.len() > 0 {
        ls[0]
    } else {
        seq![]
    };
    trim(strip_prefix_all(trim(first), seq!['$']))
}

/// All lines but the first.
pub open spec fn after_first(ls: Seq<Seq<char>>) -> Seq<Seq<char>> {
    if ls.len() > 0 {
        ls.drop_first()
    } else {
        seq![]
    }
}

/// The explanation: the other non-blank lines joined with spaces, trimmed.
pub open spec fn suggested_explanation(raw: Seq<char>) -> Seq<char> {
    trim(join_space(after_first(reply_lines(raw))))
}

/// `s` with all leading repetitions of `p` removed.
pub(crate) fn strip_prefix_all_exec(s: &[char], p: &[char]) -> (r: Vec<char>)
    ensures
        r@ == strip_prefix_all(s@, p@),
{
    let mut k: usize = 0;
    let n = s.len();
    proof {
        assert(s@.skip(0) == s@);
    }
    while p.len() > 0 && occurs_at_exec(s, p, k)
        invariant
            n == s@.len(),
            k <= s@.len(),
            strip_prefix_all(s@.skip(k as int), p@) == strip_prefix_all(s@, p@),
        decreases s@.len() - k,
    {
        proof {
            assert(s@.skip(k as int).take(p@.len() as int) == s@.subrange(k as int, k + p@.len()));
            assert(s@.skip(k as int).skip(p@.len() as int) == s@.skip(k + p@.len()));
        }
        k = k + p.len();
    }
    proof {
        if p@.len() > 0 && starts_with(s@.skip(k as int), p@) {
            assert(s@.skip(k as int).take(p@.len() as int) == s@.subrange(k as int, k + p@.len()));
            assert(occurs_at(s@, p@, k as int));
        }
        assert(s@.subrange(k as int, s@.len() as int) == s@.skip(k as int));
    }
    slice_chars(s, k, s.len())
}

/// `s` with all trailing repetitions of `p` removed.
fn strip_suffix_all_exec(s: &[char], p: &[char]) -> (r: Vec<char>)
    ensures
        r@ == strip_suffix_all(s@, p@),
{
    let mut n: usize = s.len();
    proof {
        assert(s@.take(s@.len() as int) == s@);
    }
    while p.len() > 0 && n >= p.len() && occurs_at_exec(s, p, n - p.len())
        invariant
            n <= s@.len(),
            strip_suffix_all(s@.take(n as int), p@) == strip_suffix_all(s@, p@),
        decreases n,
    {
        proof {
            let t = s@.take(n as int);
            assert(t.skip(t.len() - p@.len()) == s@.subrange(n - p@.len(), n as int));
            assert(t.take(t.len() - p@.len()) == s@.take(n - p@.len()));
        }
        n = n - p.len();
    }
    proof {
        let t = s@.take(n as int);
        if p@.len() > 0 && ends_with(t, p@) {
            assert(t.skip(t.len() - p@.len()) == s@.subrange(n - p@.len(), n as int));
            assert(occurs_at(s@, p@, n - p@.len()));
        }
        assert(s@.subrange(0, n as int) == t);
    }
    slice_chars(s, 0, n)
}

/// Position of the first line feed at or after `from`, or the length.
pub(crate) fn find_newline(s: &[char], from: usize) -> (k: usize)
    requires
        from <= s@.len(),
    ensures
        from <= k <= s@.len(),
        forall|j: int| from <= j < k ==> s@[j] != '\n',
        k < s@.len() ==> s@[k as int] == '\n',
{
    let mut k = from;
    while k < s.len() && s[k] != '\n'
        invariant
            from <= k <= s@.len(),
            forall|j: int| from <= j < k ==> s@[j] != '\n',
        decreases s@.len() - k,
    {
        k = k + 1;
    }
    k
}

/// The first line of `s.skip(from)` ends where the next line feed is.
pub(crate) proof fn lemma_line_end_at(s: Seq<char>, from: int, k: int)
    requires
        0 <= from <= k <= s.len(),
        forall|j: int| from <= j < k ==> s[j] != '\n',
        k < s.len() ==> s[k] == '\n',
    ensures
        line_end(s.skip(from)) == k - from,
{
    let u = s.skip(from);
    lemma_line_end(u);
    let e = line_end(u);
    if e < k - from {
        assert(u[e] == s[from + e]);
    }
    if k - from < e {
        assert(u[k - from] == s[k]);
    }
}

/// How the lines of `s` continue after the line starting at `from`, which
/// ends at `k` (a line feed or the end).
proof fn lemma_lines_step(s: Seq<char>, from: int, k: int)
    requires
        0 <= from < s.len(),
        from <= k <= s.len(),
        forall|j: int| from <= j < k ==> s[j] != '\n',
        k < s.len() ==> s[k] == '\n',
    ensures
        k < s.len() ==> lines_of(s.skip(from)) == seq![strip_cr(s.subrange(from, k))] + lines_of(
            s.skip(k + 1),
        ),
        k == s.len() ==> lines_of(s.skip(from)) == seq![s.subrange(from, k)] + lines_of(s.skip(k)),
{
    lemma_line_end_at(s, from, k);
    let u = s.skip(from);
    if k < s.len() {
        assert(u.take(k - from) == s.subrange(from, k));
        assert(u.skip(k - from + 1) == s.skip(k + 1));
    } else {
        assert(u == s.subrange(from, k));
        assert(lines_of(s.skip(k)) == Seq::<Seq<char>>::empty()) by {
            assert(s.skip(k).len() == 0);
        }
        assert(lines_of(u) == seq![u]);
        assert(seq![u] + Seq::<Seq<char>>::empty() == seq![u]);
    }
}

proof fn lemma_nonblank_push(acc: Seq<Seq<char>>, l: Seq<char>)
    ensures
        nonblank(acc.push(l)) == (if trim(l).len() > 0 {
            nonblank(acc).push(l)
        } else {
            nonblank(acc)
        }),
{
    assert(acc.push(l).drop_last() == acc);
    assert(acc.push(l).last() == l);
}

proof fn lemma_join_push(ls: Seq<Seq<char>>, l: Seq<char>)
    ensures
        join_space(ls.push(l)) == (if ls.len() == 0 {
            l
        } else {
            join_space(ls) + seq![' '] + l
        }),
{
    assert(ls.push(l).drop_last() == ls);
    assert(ls.push(l).last() == l);
    if ls.len() == 0 {
        assert(ls.push(l)[0] == l);
    }
}

/// `l` without the carriage return of a CRLF ending.
pub(crate) fn strip_cr_exec(l: Vec<char>) -> (r: Vec<char>)
    ensures
        r@ == strip_cr(l@),
{
    let mut l = l;
    if l.len() > 0 && l[l.len() - 1] == '\r' {
        l.pop();
    }
    l
}

/// A command suggested by the model, with its explanation and the reply it
/// came from.
#[derive(Debug, Clone)]
pub struct CommandSuggestion {
    pub command: String,
    pub explanation: String,
    pub raw: String,
}

impl CommandSuggestion {
    /// Read a reply of the form "command line, then explanation": code
    /// fences and a leading `$` are dropped, blank lines skipped.
    pub fn parse(raw: &str) -> (r: Self)
        ensures
            r.command@ == suggested_command(raw@),
            r.explanation@ == suggested_explanation(raw@),
            r.raw@ == raw@,
    {
        let all = chars_of(raw);
        let t0 = trim_chars(all.as_slice());
        let fence_bash = chars_of("```bash");
        let fence_sh = chars_of("```sh");
        let fence = chars_of("```");
        let t1 = strip_prefix_all_exec(t0.as_slice(), fence_bash.as_slice());
        let t2 = strip_prefix_all_exec(t1.as_slice(), fence_sh.as_slice());
        let t3 = strip_prefix_all_exec(t2.as_slice(), fence.as_slice());
        let t4 = strip_suffix_all_exec(t3.as_slice(), fence.as_slice());
        let cleaned = trim_chars(t4.as_slice());
        let n = cleaned.len();
        let mut first: Option<Vec<char>> = None;
        let mut rest: Vec<char> = Vec::new();
        let mut has_rest = false;
        let ghost mut acc: Seq<Seq<char>> = seq![];
        let mut pos: usize = 0;
        proof {
            assert(cleaned@.skip(0) == cleaned@);
            assert(acc + lines_of(cleaned@) == lines_of(cleaned@));
        }
        while pos < n
            invariant
                n == cleaned@.len(),
                pos <= n,
                lines_of(cleaned@) == acc + lines_of(cleaned@.skip(pos as int)),
                (nonblank(acc).len() == 0) == (first is None),
                first matches Some(f) ==> f@ == nonblank(acc)[0],
                has_rest == (nonblank(acc).len() >= 2),
                rest@ == join_space(after_first(nonblank(acc))),
            decreases n - pos,
        {
            let k = find_newline(cleaned.as_slice(), pos);
            let seg = slice_chars(cleaned.as_slice(), pos, k);
            let line = if k < n {
                strip_cr_exec(seg)
            } else {
                seg
            };
            let next = if k < n {
                k + 1
            } else {
                n
            };
            proof {
                lemma_lines_step(cleaned@, pos as int, k as int);
                assert(lines_of(cleaned@.skip(pos as int)) == seq![line@] + lines_of(
                    cleaned@.skip(next as int),
                ));
                assert(acc + lines_of(cleaned@.skip(pos as int)) == acc.push(line@) + lines_of(
                    cleaned@.skip(next as int),
                ));
                lemma_nonblank_push(acc, line@);
            }
            let tl = trim_chars(line.as_slice());
            if tl.len() > 0 {
                proof {
                    let nb = nonblank(acc);
                    if nb.len() > 0 {
                        assert(nb.push(line@).drop_first() == nb.drop_first().push(line@));
                        lemma_join_push(nb.drop_first(), line@);
                    } else {
                        assert(nb.push(line@)[0] == line@);
                        assert(nb.push(line@).drop_first() == Seq::<Seq<char>>::empty());
                    }
                }
                match first {
                    None => {
                        first = Some(line);
                    },
                    Some(f) => {
                        first = Some(f);
                        if has_rest {
                            rest.push(' ');
                        }
                        let mut l2 = line;
                        rest.append(&mut l2);
                        has_rest = true;
                    },
                }
            }
            proof {
                acc = acc.push(line@);
            }
            pos = next;
        }
        proof {
            assert(cleaned@.skip(n as int).len() == 0);
            assert(acc + lines_of(cleaned@.skip(n as int)) == acc);
        }
        let first_line = match first {
            Some(f) => f,
            None => Vec::new(),
        };
        let c0 = trim_chars(first_line.as_slice());
        let dollar = vec!['$'];
        let c1 = strip_prefix_all_exec(c0.as_slice(), dollar.as_slice());
        let c2 = trim_chars(c1.as_slice());
        let e = trim_chars(rest.as_slice());
        proof {
            assert(dollar@ == seq!['$']);
        }
        CommandSuggestion { command: string_of(c2.as_slice()), explanation: string_of(e.as_slice()), raw: owned(raw) }
    }
}

/// One message of a chat transcript.
#[derive(Debug, Clone)]
pub struct ChatMessage {
    pub role: String,
    pub content: String,
}

/// In-memory chat transcript for the AI chat pane.
#[derive(Debug, Clone)]
pub struct ChatSession {
    pub messages: Vec<ChatMessage>,
}

impl Default for ChatSession {
    fn default() -> (r: Self)
        ensures
            r.messages@.len() == 0,
    {
        ChatSession { messages: Vec::new() }
    }
}

impl ChatSession {
    /// Append a message of the user.
    pub fn push_user(&mut self, content: String)
        ensures
            final(self).messages@.len() == old(self).messages@.len() + 1,
            final(self).messages@.take(old(self).messages@.len() as int) == old(self).messages@,
            final(self).messages@.last().role@ == "user"@,
            final(self).messages@.last().content == content,
    {
        self.messages.push(ChatMessage { role: owned("user"), content });
        proof {
            assert(final(self).messages@.take(old(self).messages@.len() as int) =~= old(self).messages@);
        }
    }

    /// Append a reply of the model.
    pub fn push_assistant(&mut self, content: String)
        ensures
            final(self).messages@.len() == old(self).messages@.len() + 1,
            final(self).messages@.take(old(self).messages@.len() as int) == old(self).messages@,
            final(self).messages@.last().role@ == "assistant"@,
            final(self).messages@.last().content == content,
    {
        self.messages.push(ChatMessage { role: owned("assistant"), content });
        proof {
            assert(final(self).messages@.take(old(self).messages@.len() as int) =~= old(self).messages@);
        }
    }
}

/// The system prompt of command help when the configuration gives none.
pub const DEFAULT_COMMAND_HELP_PROMPT: &'static str = "You are a command-line assistant. Reply with exactly two lines:\nLINE1: a single shell command for the user's OS (no markdown fences)\nLINE2: one short sentence of explanation\nNever execute anything; only suggest.";

/// The user message of a command-help request.
pub open spec fn command_help_question(question: Seq<char>, os_hint: Seq<char>, shell_hint: Seq<char>) -> Seq<char> {
    "OS: "@ + os_hint + "\nShell: "@ + shell_hint + "\nRequest: "@ + question
}

/// `out` with the characters of `s` appended.
pub(crate) fn push_str_chars(out: &mut Vec<char>, s: &str)
    ensures
        final(out)@ == old(out)@ + s@,
{
    let mut c = chars_of(s);
    out.append(&mut c);
}

/// The two messages of a command-help request: the system prompt (the
/// given one, or [`DEFAULT_COMMAND_HELP_PROMPT`]) and the user's question
/// with the OS and shell it is for.
pub fn command_help_request(question: &str, os_hint: &str, shell_hint: &str, system_prompt: Option<&str>) -> (m: Vec<ChatMessage>)
    ensures
        m@.len() == 2,
        m@[0].role@ == "system"@,
        m@[0].content@ == (match system_prompt {
            Some(p) => p@,
            None => DEFAULT_COMMAND_HELP_PROMPT@,
        }),
        m@[1].role@ == "user"@,
        m@[1].content@ == command_help_question(question@, os_hint@, shell_hint@),
{
    let system = match system_prompt {
        Some(p) => p,
        None => DEFAULT_COMMAND_HELP_PROMPT,
    };
    let mut user: Vec<char> = Vec::new();
    push_str_chars(&mut user, "OS: ");
    push_str_chars(&mut user, os_hint);
    push_str_chars(&mut user, "\nShell: ");
    push_str_chars(&mut user, shell_hint);
    push_str_chars(&mut user, "\nRequest: ");
    push_str_chars(&mut user, question);
    let mut m: Vec<ChatMessage> = Vec::new();
    m.push(ChatMessage { role: owned("system"), content: owned(system) });
    m.push(ChatMessage { role: owned("user"), content: string_of(user.as_slice()) });
    proof {
        assert(user@ == command_help_question(question@, os_hint@, shell_hint@));
    }
    m
}

/// The complete lines (each ended by a line feed) of `s`.
pub open spec fn complete_lines(s: Seq<char>) -> Seq<Seq<char>>
    decreases s.len(),
{
    let k = line_end(s);
    if k < s.len() {
        proof {
            lemma_line_end(s);
        }
        seq![s.take(k)] + complete_lines(s.skip(k + 1))
    } else {
        seq![]
    }
}

/// What follows the last line feed of `s`.
pub open spec fn incomplete_tail(s: Seq<char>) -> Seq<char>
    decreases s.len(),
{
    let k = line_end(s);
    if k < s.len() {
        proof {
            lemma_line_end(s);
        }
        incomplete_tail(s.skip(k + 1))
    } else {
        s
    }
}

/// The lines, trimmed, that hold more than whitespace.
pub open spec fn trimmed_nonblank(ls: Seq<Seq<char>>) -> Seq<Seq<char>>
    decreases ls.len(),
{
    if ls.len() == 0 {
        seq![]
    } else if trim(ls.last()).len() > 0 {
        trimmed_nonblank(ls.drop_last()).push(trim(ls.last()))
    } else {
        trimmed_nonblank(ls.drop_last())
    }
}

proof fn lemma_complete_step(s: Seq<char>, from: int, k: int)
    requires
        0 <= from <= k <= s.len(),
        forall|j: int| from <= j < k ==> s[j] != '\n',
        k < s.len() ==> s[k] == '\n',
    ensures
        k < s.len() ==> complete_lines(s.skip(from)) == seq![s.subrange(from, k)] + complete_lines(
            s.skip(k + 1),
        ) && incomplete_tail(s.skip(from)) == incomplete_tail(s.skip(k + 1)),
        k == s.len() ==> complete_lines(s.skip(from)) == Seq::<Seq<char>>::empty()
            && incomplete_tail(s.skip(from)) == s.skip(from),
{
    lemma_line_end_at(s, from, k);
    let u = s.skip(from);
    if k < s.len() {
        assert(u.take(k - from) == s.subrange(from, k));
        assert(u.skip(k - from + 1) == s.skip(k + 1));
    }
}

/// Splits the text of a streamed reply into lines as it arrives: a line is
/// handed out once its line feed has come, trimmed, and only when it holds
/// more than whitespace.
pub struct StreamLineBuffer {
    pending: Vec<char>,
}

impl View for StreamLineBuffer {
    type V = Seq<char>;

    /// The text after the last complete line.
    closed spec fn view(&self) -> Seq<char> {
        self.pending@
    }
}

impl StreamLineBuffer {
    pub fn new() -> (b: Self)
        ensures
            b@ == Seq::<char>::empty(),
    {
        StreamLineBuffer { pending: Vec::new() }
    }

    /// Take in the next piece of text; returns the lines it completes.
    pub fn push(&mut self, chunk: &str) -> (lines: Vec<String>)
        ensures
            final(self)@ == incomplete_tail(old(self)@ + chunk@),
            lines@.len() == trimmed_nonblank(complete_lines(old(self)@ + chunk@)).len(),
            forall|i: int|
                0 <= i < lines@.len() ==> #[trigger] lines@[i]@ == trimmed_nonblank(
                    complete_lines(old(self)@ + chunk@),
                )[i],
    {
        let mut all = self.pending.clone();
        proof {
            assert(all@ == old(self)@);
        }
        push_str_chars(&mut all, chunk);
        let ghost whole = all@;
        let n = all.len();
        let mut out: Vec<String> = Vec::new();
        let ghost mut acc: Seq<Seq<char>> = seq![];
        let mut pos: usize = 0;
        proof {
            assert(whole.skip(0) == whole);
            assert(acc + complete_lines(whole) == complete_lines(whole));
        }
        loop
            invariant
                all@ == whole,
                whole == old(self)@ + chunk@,
                n == whole.len(),
                pos <= n,
                complete_lines(whole) == acc + complete_lines(whole.skip(pos as int)),
                incomplete_tail(whole) == incomplete_tail(whole.skip(pos as int)),
                out@.len() == trimmed_nonblank(acc).len(),
                forall|i: int| 0 <= i < out@.len() ==> #[trigger] out@[i]@ == trimmed_nonblank(acc)[i],
            decreases n - pos,
        {
            let k = find_newline(all.as_slice(), pos);
            proof {
                lemma_complete_step(whole, pos as int, k as int);
            }
            if k == n {
                self.pending = slice_chars(all.as_slice(), pos, n);
                proof {
                    assert(acc + Seq::<Seq<char>>::empty() == acc);
                    assert(whole.subrange(pos as int, n as int) == whole.skip(pos as int));
                }
                return out;
            }
            let seg = slice_chars(all.as_slice(), pos, k);
            let t = trim_chars(seg.as_slice());
            proof {
                assert(acc + complete_lines(whole.skip(pos as int)) == acc.push(seg@) + complete_lines(
                    whole.skip(k + 1),
                ));
                assert(acc.push(seg@).drop_last() == acc);
                assert(acc.push(seg@).last() == seg@);
            }
            if t.len() > 0 {
                out.push(string_of(t.as_slice()));
            }
            proof {
                acc = acc.push(seg@);
            }
            pos = k + 1;
        }
    }
}

/// The first line feed of `s + t` is that of `s` when `s` has one.
proof fn lemma_line_end_concat(s: Seq<char>, t: Seq<char>)
    requires
        line_end(s) < s.len(),
    ensures
        line_end(s + t) == line_end(s),
{
    lemma_line_end(s);
    lemma_line_end(s + t);
    let k = line_end(s);
    let e = line_end(s + t);
    assert((s + t)[k] == s[k]);
    if e < k {
        assert((s + t)[e] == s[e]);
    }
}

/// Splitting `s + t` into lines: the complete lines of `s`, then those of
/// what follows the last line feed of `s` joined with `t`.
proof fn lemma_complete_lines_concat(s: Seq<char>, t: Seq<char>)
    ensures
        complete_lines(s + t) == complete_lines(s) + complete_lines(incomplete_tail(s) + t),
        incomplete_tail(s + t) == incomplete_tail(incomplete_tail(s) + t),
    decreases s.len(),
{
    lemma_line_end(s);
    let k = line_end(s);
    if k < s.len() {
        lemma_line_end_concat(s, t);
        let rest = s.skip(k + 1);
        assert((s + t).take(k) == s.take(k));
        assert((s + t).skip(k + 1) == rest + t);
        lemma_complete_lines_concat(rest, t);
        assert(complete_lines(s) == seq![s.take(k)] + complete_lines(rest));
        assert(seq![s.take(k)] + (complete_lines(rest) + complete_lines(incomplete_tail(rest) + t)) == (
        seq![s.take(k)] + complete_lines(rest)) + complete_lines(incomplete_tail(rest) + t));
    } else {
        assert(complete_lines(s) == Seq::<Seq<char>>::empty());
        assert(Seq::<Seq<char>>::empty() + complete_lines(s + t) == complete_lines(s + t));
    }
}

proof fn lemma_trimmed_nonblank_concat(x: Seq<Seq<char>>, y: Seq<Seq<char>>)
    ensures
        trimmed_nonblank(x + y) == trimmed_nonblank(x) + trimmed_nonblank(y),
    decreases y.len(),
{
    if y.len() == 0 {
        assert(x + y == x);
        assert(trimmed_nonblank(x) + Seq::<Seq<char>>::empty() == trimmed_nonblank(x));
    } else {
        assert((x + y).drop_last() == x + y.drop_last());
        assert((x + y).last() == y.last());
        lemma_trimmed_nonblank_concat(x, y.drop_last());
        if trim(y.last()).len() > 0 {
            assert(trimmed_nonblank(x) + trimmed_nonblank(y.drop_last()).push(trim(y.last())) == (
            trimmed_nonblank(x) + trimmed_nonblank(y.drop_last())).push(trim(y.last())));
        }
    }
}

/// Streamed text yields the same lines however it is cut into pieces:
/// taking in `a` and then `b` hands out, in order, exactly the lines that
/// taking in `a + b` at once would, and keeps the same unfinished tail.
pub proof fn lemma_stream_pieces(pending: Seq<char>, a: Seq<char>, b: Seq<char>)
    ensures
        trimmed_nonblank(complete_lines(pending + a)) + trimmed_nonblank(
            complete_lines(incomplete_tail(pending + a) + b),
        ) == trimmed_nonblank(complete_lines(pending + (a + b))),
        incomplete_tail(incomplete_tail(pending + a) + b) == incomplete_tail(pending + (a + b)),
{
    assert(pending + (a + b) == (pending + a) + b);
    lemma_complete_lines_concat(pending + a, b);
    lemma_trimmed_nonblank_concat(
        complete_lines(pending + a),
        complete_lines(incomplete_tail(pending + a) + b),
    );
}

} // verus!
