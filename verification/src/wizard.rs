//! The interactive setup: how answers are read and the configuration file
//! the answers make.

use vstd::prelude::*;

use crate::text::{
    chars_of, decimal, lemma_split_on_nonempty, push_char, push_chars, split_chars, split_on, string_of,
    trim, trimmed,
};

verus! {

/// What `c` becomes inside a TOML double-quoted value.
pub open spec fn escape_char(c: char) -> Seq<char> {
    if c == '\\' {
        seq!['\\', '\\']
    } else if c == '"' {
        seq!['\\', '"']
    } else {
        seq![c]
    }
}

/// `s` escaped for a TOML double-quoted value: each backslash and each
/// double quote gets a backslash in front.
pub open spec fn escaped(s: Seq<char>) -> Seq<char>
    decreases s.len(),
{
    if s.len() == 0 {
        Seq::empty()
    } else {
        escaped(s.drop_last()) + escape_char(s.last())
    }
}

/// Reads escapes back: a backslash followed by a character stands for that
/// character, as `\\` and `\"` do in a TOML basic string.
pub open spec fn unescaped(t: Seq<char>) -> Seq<char>
    decreases t.len(),
{
    if t.len() == 0 {
        Seq::empty()
    } else if t[0] == '\\' && t.len() >= 2 {
        seq![t[1]] + unescaped(t.skip(2))
    } else {
        seq![t[0]] + unescaped(t.drop_first())
    }
}

/// Escapes a string for embedding inside a TOML double-quoted value.
pub fn esc(s: &str) -> (r: String)
    ensures
        r@ == escaped(s@),
{
    let cs = chars_of(s);
    let mut r = String::new();
    let mut i: usize = 0;
    while i < cs.len()
        invariant
            0 <= i <= cs.len(),
            cs@ == s@,
            r@ == escaped(cs@.take(i as int)),
        decreases cs.len() - i,
    {
        let c = cs[i];
        proof {
            assert(cs@.take(i as int + 1).drop_last() =~= cs@.take(i as int));
        }
        if c == '\\' {
            push_char(&mut r, '\\');
            push_char(&mut r, '\\');
        } else if c == '"' {
            push_char(&mut r, '\\');
            push_char(&mut r, '"');
        } else {
            push_char(&mut r, c);
        }
        assert(r@ =~= escaped(cs@.take(i as int + 1)));
        i = i + 1;
    }
    assert(cs@.take(cs.len() as int) =~= cs@);
    r
}

proof fn lemma_escaped_concat(a: Seq<char>, b: Seq<char>)
    ensures
        escaped(a + b) == escaped(a) + escaped(b),
    decreases b.len(),
{
    if b.len() == 0 {
        assert(a + b =~= a);
        assert(escaped(a) + escaped(b) =~= escaped(a));
    } else {
        lemma_escaped_concat(a, b.drop_last());
        assert((a + b).drop_last() =~= a + b.drop_last());
        assert(escaped(a) + escaped(b) =~= escaped(a) + escaped(b.drop_last()) + escape_char(b.last()));
    }
}

/// Unescaping what `esc` produces gives back its input: a value survives
/// the round trip through the configuration file.
pub proof fn law_unescape_undoes_escape(s: Seq<char>)
    ensures
        unescaped(escaped(s)) == s,
    decreases s.len(),
{
    if s.len() > 0 {
        let c = s[0];
        let rest = s.drop_first();
        assert(s =~= seq![c] + rest);
        lemma_escaped_concat(seq![c], rest);
        assert(seq![c].drop_last() =~= Seq::<char>::empty());
        assert(escaped(seq![c].drop_last()) == Seq::<char>::empty());
        assert(seq![c].last() == c);
        assert(escaped(seq![c]) =~= escape_char(c));
        law_unescape_undoes_escape(rest);
        let t = escape_char(c) + escaped(rest);
        if c == '\\' || c == '"' {
            assert(t.skip(2) =~= escaped(rest));
        } else {
            assert(t.drop_first() =~= escaped(rest));
        }
    }
}

/// `t` is a well-formed body of a TOML double-quoted value as the setup
/// writes one: no bare double quote, and each backslash starts an escape of
/// a backslash or a double quote.
pub open spec fn well_escaped(t: Seq<char>) -> bool
    decreases t.len(),
{
    if t.len() == 0 {
        true
    } else if t[0] == '\\' {
        t.len() >= 2 && (t[1] == '\\' || t[1] == '"') && well_escaped(t.skip(2))
    } else {
        t[0] != '"' && well_escaped(t.drop_first())
    }
}

/// What `esc` produces is a well-formed quoted value: it holds no bare
/// double quote that would end the value early, and no stray backslash.
pub proof fn law_escape_is_well_formed(s: Seq<char>)
    ensures
        well_escaped(escaped(s)),
    decreases s.len(),
{
    if s.len() > 0 {
        let c = s[0];
        let rest = s.drop_first();
        assert(s =~= seq![c] + rest);
        lemma_escaped_concat(seq![c], rest);
        assert(seq![c].drop_last() =~= Seq::<char>::empty());
        assert(escaped(seq![c].drop_last()) == Seq::<char>::empty());
        assert(seq![c].last() == c);
        assert(escaped(seq![c]) =~= escape_char(c));
        law_escape_is_well_formed(rest);
        let t = escape_char(c) + escaped(rest);
        if c == '\\' || c == '"' {
            assert(t.skip(2) =~= escaped(rest));
        } else {
            assert(t.drop_first() =~= escaped(rest));
        }
    }
}

/// The answer `ask` returns for the line typed: the line without surrounding
/// white space, or `default` when nothing else is left.
pub open spec fn answer_text(line: Seq<char>, default: Seq<char>) -> Seq<char> {
    if trimmed(line).len() == 0 {
        default
    } else {
        trimmed(line)
    }
}

/// The answer to a prompt for the line typed.
pub fn answer(line: &str, default: &str) -> (r: String)
    ensures
        r@ == answer_text(line@, default@),
{
    let t = trim(line);
    if t.as_str().is_empty() {
        let mut d = String::new();
        push_chars(&mut d, default);
        d
    } else {
        t
    }
}

/// Whether `s` is the single letter `letter` in either case
/// (`eq_ignore_ascii_case` with a one-letter string).
pub open spec fn is_letter_answer(s: Seq<char>, lower: char, upper: char) -> bool {
    s == seq![lower] || s == seq![upper]
}

/// The answers of the setup.
pub struct WizardAnswers {
    pub host: String,
    pub port: String,
    pub ssl: bool,
    pub connections: String,
    pub username: String,
    pub password: String,
    pub groups: String,
    pub from: String,
    pub par2: String,
}

/// One newsgroup as the configuration lists it: trimmed, escaped, quoted.
pub open spec fn quoted_group(g: Seq<char>) -> Seq<char> {
    seq!['"'] + escaped(trimmed(g)) + seq!['"']
}

/// The newsgroups as the configuration lists them, separated by `", "`.
pub open spec fn group_list(gs: Seq<Seq<char>>) -> Seq<char>
    decreases gs.len(),
{
    if gs.len() == 0 {
        Seq::empty()
    } else if gs.len() == 1 {
        quoted_group(gs[0])
    } else {
        group_list(gs.drop_last()) + ", "@ + quoted_group(gs.last())
    }
}

/// `true` or `false`, as `bool` displays.
pub open spec fn bool_text(b: bool) -> Seq<char> {
    if b { "true"@ } else { "false"@ }
}

/// The `[server]` section of the configuration, with the file's heading.
pub open spec fn server_text(host: Seq<char>, port: Seq<char>, ssl: bool, connections: Seq<char>) -> Seq<char> {
    "# pesto configuration — generated by `pesto --config`.\n\n"@
    + "[server]\n"@
    + "host = \""@ + escaped(host) + "\"\n"@
    + "port = "@ + trimmed(port) + "\n"@
    + "ssl = "@ + bool_text(ssl) + "\n"@
    + "connections = "@ + trimmed(connections) + "\n"@
    + "\n"@
}

/// The `[auth]` section, present only when a user name was given.
pub open spec fn auth_text(username: Seq<char>, password: Seq<char>) -> Seq<char> {
    if username.len() > 0 {
        "[auth]\n"@
        + "username = \""@ + escaped(username) + "\"\n"@
        + "password = \""@ + escaped(password) + "\"\n\n"@
    } else {
        Seq::empty()
    }
}

/// The `[posting]` section.
pub open spec fn posting_text(groups: Seq<char>, from: Seq<char>, par2: Seq<char>) -> Seq<char> {
    "[posting]\n"@
    + "groups = ["@ + group_list(split_on(groups, ',')) + "]\n"@
    + (if from.len() == 0 {
        "# from omitted: each run posts under a random identity.\n"@
    } else {
        "from = \""@ + escaped(from) + "\"\n"@
    })
    + "par2 = "@ + trimmed(par2) + "\n"@
}

/// The configuration file the setup writes for the answers given.
pub open spec fn config_text(
    host: Seq<char>,
    port: Seq<char>,
    ssl: bool,
    connections: Seq<char>,
    username: Seq<char>,
    password: Seq<char>,
    groups: Seq<char>,
    from: Seq<char>,
    par2: Seq<char>,
) -> Seq<char> {
    server_text(host, port, ssl, connections) + auth_text(username, password) + posting_text(
        groups,
        from,
        par2,
    )
}

impl WizardAnswers {
    /// The configuration file these answers make.
    pub open spec fn config_spec(&self) -> Seq<char> {
        config_text(
            self.host@,
            self.port@,
            self.ssl,
            self.connections@,
            self.username@,
            self.password@,
            self.groups@,
            self.from@,
            self.par2@,
        )
    }

    /// The TOML text of the configuration file.
    pub fn config_toml(&self) -> (r: String)
        ensures
            r@ == self.config_spec(),
            exists|a: Seq<char>, v: Seq<char>, b: Seq<char>|
                r@ == a + "host = \""@ + v + "\"\n"@ + b && well_escaped(v) && unescaped(v)
                    == self.host@,
            self.username@.len() > 0 ==> exists|a: Seq<char>, v: Seq<char>, b: Seq<char>|
                r@ == a + "username = \""@ + v + "\"\n"@ + b && well_escaped(v) && unescaped(v)
                    == self.username@,
            self.username@.len() > 0 ==> exists|a: Seq<char>, v: Seq<char>, b: Seq<char>|
                r@ == a + "password = \""@ + v + "\"\n"@ + b && well_escaped(v) && unescaped(v)
                    == self.password@,
            self.from@.len() > 0 ==> exists|a: Seq<char>, v: Seq<char>, b: Seq<char>|
                r@ == a + "from = \""@ + v + "\"\n"@ + b && well_escaped(v) && unescaped(v)
                    == self.from@,
    {
        proof {
            law_config_values_read_back(
                self.host@,
                self.port@,
                self.ssl,
                self.connections@,
                self.username@,
                self.password@,
                self.groups@,
                self.from@,
                self.par2@,
            );
        }
        let mut t = String::new();
        push_server(&mut t, self.host.as_str(), self.port.as_str(), self.ssl, self.connections.as_str());
        push_auth(&mut t, self.username.as_str(), self.password.as_str());
        push_posting(&mut t, self.groups.as_str(), self.from.as_str(), self.par2.as_str());
        assert(t@ =~= self.config_spec());
        t
    }
}

/// Every quoted value of the configuration file reads back as its answer:
/// the file holds a line `host = "v"` whose value `v` is well formed and
/// unescapes to the host given; likewise `username = "v"` and
/// `password = "v"` when a user name was given, and `from = "v"` when a
/// From header was given.
pub proof fn law_config_values_read_back(
    host: Seq<char>,
    port: Seq<char>,
    ssl: bool,
    connections: Seq<char>,
    username: Seq<char>,
    password: Seq<char>,
    groups: Seq<char>,
    from: Seq<char>,
    par2: Seq<char>,
)
    ensures
        ({
            let text = config_text(host, port, ssl, connections, username, password, groups, from, par2);
            &&& exists|a: Seq<char>, v: Seq<char>, b: Seq<char>|
                text == a + "host = \""@ + v + "\"\n"@ + b && well_escaped(v) && unescaped(v) == host
            &&& username.len() > 0 ==> exists|a: Seq<char>, v: Seq<char>, b: Seq<char>|
                text == a + "username = \""@ + v + "\"\n"@ + b && well_escaped(v) && unescaped(v)
                    == username
            &&& username.len() > 0 ==> exists|a: Seq<char>, v: Seq<char>, b: Seq<char>|
                text == a + "password = \""@ + v + "\"\n"@ + b && well_escaped(v) && unescaped(v)
                    == password
            &&& from.len() > 0 ==> exists|a: Seq<char>, v: Seq<char>, b: Seq<char>|
                text == a + "from = \""@ + v + "\"\n"@ + b && well_escaped(v) && unescaped(v)
                    == from
        }),
{
    let text = config_text(host, port, ssl, connections, username, password, groups, from, par2);
    let server = server_text(host, port, ssl, connections);
    let auth = auth_text(username, password);
    let posting = posting_text(groups, from, par2);
    let end = "\"\n"@;
    let head = "# pesto configuration — generated by `pesto --config`.\n\n"@ + "[server]\n"@;
    let after_host = "port = "@ + trimmed(port) + "\n"@ + "ssl = "@ + bool_text(ssl) + "\n"@
        + "connections = "@ + trimmed(connections) + "\n"@ + "\n"@;
    assert(server =~= head + "host = \""@ + escaped(host) + end + after_host);
    lemma_regroup(Seq::empty(), head, "host = \""@, escaped(host), after_host, auth, posting);
    assert(Seq::<char>::empty() + server =~= server);
    lemma_reads_back(text, "host = \""@, host, Seq::empty() + head, after_host + auth + posting);
    if username.len() > 0 {
        let b1 = "password = \""@ + escaped(password) + "\"\n\n"@;
        let a1 = "[auth]\n"@;
        assert(auth =~= a1 + "username = \""@ + escaped(username) + end + b1);
        lemma_regroup(server, a1, "username = \""@, escaped(username), b1, Seq::empty(), posting);
        assert(server + auth + Seq::<char>::empty() =~= server + auth);
        lemma_reads_back(text, "username = \""@, username, server + a1, b1 + Seq::empty() + posting);
        let a2 = a1 + "username = \""@ + escaped(username) + end;
        assert("\"\n\n"@ =~= end + "\n"@) by {
            reveal_strlit("\"\n\n");
            reveal_strlit("\"\n");
            reveal_strlit("\n");
        }
        assert(auth =~= a2 + "password = \""@ + escaped(password) + end + "\n"@);
        lemma_regroup(server, a2, "password = \""@, escaped(password), "\n"@, Seq::empty(), posting);
        lemma_reads_back(text, "password = \""@, password, server + a2, "\n"@ + Seq::empty() + posting);
    }
    if from.len() > 0 {
        let a3 = "[posting]\n"@ + "groups = ["@ + group_list(split_on(groups, ',')) + "]\n"@;
        let b3 = "par2 = "@ + trimmed(par2) + "\n"@;
        assert(posting =~= a3 + "from = \""@ + escaped(from) + end + b3);
        lemma_regroup(server + auth, a3, "from = \""@, escaped(from), b3, Seq::empty(), Seq::empty());
        assert(server + auth + posting + Seq::<char>::empty() + Seq::<char>::empty() =~= text);
        lemma_reads_back(text, "from = \""@, from, server + auth + a3, b3 + Seq::empty() + Seq::empty());
    }
}

/// Regrouping a text around a quoted value.
proof fn lemma_regroup(
    x: Seq<char>,
    a: Seq<char>,
    key: Seq<char>,
    v: Seq<char>,
    b: Seq<char>,
    y: Seq<char>,
    z: Seq<char>,
)
    ensures
        x + (a + key + v + "\"\n"@ + b) + y + z == (x + a) + key + v + "\"\n"@ + (b + y + z),
{
    assert(x + (a + key + v + "\"\n"@ + b) + y + z =~= (x + a) + key + v + "\"\n"@ + (b + y + z));
}

/// A text that holds `key`, the escaped `value` and `"` with a line break
/// holds a quoted value that reads back as `value`.
proof fn lemma_reads_back(text: Seq<char>, key: Seq<char>, value: Seq<char>, a: Seq<char>, b: Seq<char>)
    requires
        text == a + key + escaped(value) + "\"\n"@ + b,
    ensures
        exists|a: Seq<char>, v: Seq<char>, b: Seq<char>|
            text == a + key + v + "\"\n"@ + b && well_escaped(v) && unescaped(v) == value,
{
    law_escape_is_well_formed(value);
    law_unescape_undoes_escape(value);
    assert(text == a + key + escaped(value) + "\"\n"@ + b && well_escaped(escaped(value))
        && unescaped(escaped(value)) == value);
}

fn push_server(t: &mut String, host: &str, port: &str, ssl: bool, connections: &str)
    ensures
        final(t)@ == old(t)@ + server_text(host@, port@, ssl, connections@),
{
    let ghost start = t@;
    push_chars(t, "# pesto configuration — generated by `pesto --config`.\n\n");
    push_chars(t, "[server]\n");
    push_chars(t, "host = \"");
    push_chars(t, esc(host).as_str());
    push_chars(t, "\"\n");
    push_chars(t, "port = ");
    push_chars(t, trim(port).as_str());
    push_chars(t, "\n");
    push_chars(t, "ssl = ");
    if ssl {
        push_chars(t, "true");
    } else {
        push_chars(t, "false");
    }
    push_chars(t, "\n");
    push_chars(t, "connections = ");
    push_chars(t, trim(connections).as_str());
    push_chars(t, "\n");
    push_chars(t, "\n");
    assert(t@ =~= start + server_text(host@, port@, ssl, connections@));
}

fn push_auth(t: &mut String, username: &str, password: &str)
    ensures
        final(t)@ == old(t)@ + auth_text(username@, password@),
{
    let ghost start = t@;
    if !username.is_empty() {
        push_chars(t, "[auth]\n");
        push_chars(t, "username = \"");
        push_chars(t, esc(username).as_str());
        push_chars(t, "\"\n");
        push_chars(t, "password = \"");
        push_chars(t, esc(password).as_str());
        push_chars(t, "\"\n\n");
    }
    assert(t@ =~= start + auth_text(username@, password@));
}

fn push_posting(t: &mut String, groups: &str, from: &str, par2: &str)
    ensures
        final(t)@ == old(t)@ + posting_text(groups@, from@, par2@),
{
    let ghost start = t@;
    push_chars(t, "[posting]\n");
    push_chars(t, "groups = [");
    let list = groups_text(groups);
    push_chars(t, list.as_str());
    push_chars(t, "]\n");
    if from.is_empty() {
        push_chars(t, "# from omitted: each run posts under a random identity.\n");
    } else {
        push_chars(t, "from = \"");
        push_chars(t, esc(from).as_str());
        push_chars(t, "\"\n");
    }
    push_chars(t, "par2 = ");
    push_chars(t, trim(par2).as_str());
    push_chars(t, "\n");
    assert(t@ =~= start + posting_text(groups@, from@, par2@));
}

/// The newsgroups of the comma-separated answer `groups`, as the
/// configuration lists them.
pub fn groups_text(groups: &str) -> (r: String)
    ensures
        r@ == group_list(split_on(groups@, ',')),
{
    let parts = split_chars(groups, ',');
    let ghost gs = split_on(groups@, ',');
    let mut r = String::new();
    let mut i: usize = 0;
    while i < parts.len()
        invariant
            0 <= i <= parts.len(),
            parts@.len() == gs.len(),
            forall|k: int| 0 <= k < parts@.len() ==> #[trigger] parts@[k]@ == gs[k],
            r@ == group_list(gs.take(i as int)),
        decreases parts.len() - i,
    {
        let ghost before = r@;
        if i > 0 {
            push_chars(&mut r, ", ");
        }
        let piece = string_of(parts[i].as_slice());
        let g = trim(piece.as_str());
        push_char(&mut r, '"');
        push_chars(&mut r, esc(g.as_str()).as_str());
        push_char(&mut r, '"');
        proof {
            let next = gs.take(i as int + 1);
            assert(next.drop_last() =~= gs.take(i as int));
            assert(next.last() == gs[i as int]);
            if i == 0 {
                assert(gs.take(0).len() == 0);
                assert(r@ =~= quoted_group(gs[0]));
            } else {
                assert(r@ =~= before + ", "@ + quoted_group(gs[i as int]));
            }
        }
        i = i + 1;
    }
    assert(gs.take(parts.len() as int) =~= gs);
    r
}

} // verus!

verus! {

/// Where the setup stands: the question to ask next, or how it ended.
#[derive(Clone, Copy, PartialEq, Eq, Structural)]
pub enum WizardStep {
    ConfirmOverwrite,
    Host,
    Port,
    Ssl,
    Connections,
    Username,
    Password,
    Groups,
    From,
    Par2,
    Finished,
    Aborted,
}

/// The question of each step and the answer that stands when the user
/// types nothing.
pub open spec fn step_prompt(step: WizardStep) -> (Seq<char>, Seq<char>) {
    match step {
        WizardStep::ConfirmOverwrite => ("Config already exists; overwrite it? (y/N)"@, "n"@),
        WizardStep::Host => ("NNTP server hostname"@, ""@),
        WizardStep::Port => ("Server port"@, "563"@),
        WizardStep::Ssl => ("Use TLS? (Y/n)"@, "y"@),
        WizardStep::Connections => ("Parallel connections"@, "10"@),
        WizardStep::Username => ("Username (blank for none)"@, ""@),
        WizardStep::Password => ("Password"@, ""@),
        WizardStep::Groups => ("Newsgroups (comma-separated)"@, "alt.binaries.test"@),
        WizardStep::From => ("From header (blank = random identity per run)"@, ""@),
        WizardStep::Par2 => ("PAR2 recovery percentage (0 disables)"@, "10"@),
        WizardStep::Finished => (""@, ""@),
        WizardStep::Aborted => (""@, ""@),
    }
}

/// A question to put to the user.
pub struct Prompt {
    pub label: String,
    pub default: String,
}

/// The setup in progress: the step reached and the answers so far.
pub struct Wizard {
    pub step: WizardStep,
    pub answers: WizardAnswers,
}

/// How a question is printed: `label: `, or `label [default]: ` when there
/// is a default answer.
pub open spec fn prompt_line(label: Seq<char>, default: Seq<char>) -> Seq<char> {
    if default.len() == 0 {
        label + ": "@
    } else {
        label + " ["@ + default + "]: "@
    }
}

/// The text printed before reading an answer.
pub fn prompt_text(label: &str, default: &str) -> (r: String)
    ensures
        r@ == prompt_line(label@, default@),
{
    let mut r = String::new();
    push_chars(&mut r, label);
    if default.is_empty() {
        push_chars(&mut r, ": ");
    } else {
        push_chars(&mut r, " [");
        push_chars(&mut r, default);
        push_chars(&mut r, "]: ");
    }
    r
}

fn empty_text() -> (r: String)
    ensures
        r@ == Seq::<char>::empty(),
{
    String::new()
}

fn text_of(s: &str) -> (r: String)
    ensures
        r@ == s@,
{
    let mut r = String::new();
    push_chars(&mut r, s);
    r
}

/// Whether `s` is exactly the one-character string `c`.
fn is_single(s: &str, c: char) -> (r: bool)
    ensures
        r == (s@ == seq![c]),
{
    let cs = chars_of(s);
    if cs.len() == 1 && cs[0] == c {
        assert(cs@ =~= seq![c]);
        true
    } else {
        proof {
            if s@ == seq![c] {
                assert(cs@.len() == 1);
                assert(cs@[0] == c);
            }
        }
        false
    }
}

impl Wizard {
    /// Once the host question is behind, a host name has been given: a
    /// finished setup never writes an empty host.
    pub open spec fn host_given(&self) -> bool {
        match self.step {
            WizardStep::ConfirmOverwrite | WizardStep::Host | WizardStep::Aborted => true,
            _ => self.answers.host@.len() > 0,
        }
    }

    /// The setup as it begins: it first asks whether to overwrite an existing
    /// configuration file.
    pub fn start(config_exists: bool) -> (w: Wizard)
        ensures
            w.step == if config_exists { WizardStep::ConfirmOverwrite } else { WizardStep::Host },
            w.answers.host@.len() == 0,
            w.answers.port@.len() == 0,
            w.answers.ssl,
            w.answers.connections@.len() == 0,
            w.answers.username@.len() == 0,
            w.answers.password@.len() == 0,
            w.answers.groups@.len() == 0,
            w.answers.from@.len() == 0,
            w.answers.par2@.len() == 0,
            w.host_given(),
    {
        Wizard {
            step: if config_exists { WizardStep::ConfirmOverwrite } else { WizardStep::Host },
            answers: WizardAnswers {
                host: empty_text(),
                port: empty_text(),
                ssl: true,
                connections: empty_text(),
                username: empty_text(),
                password: empty_text(),
                groups: empty_text(),
                from: empty_text(),
                par2: empty_text(),
            },
        }
    }

    /// The question to ask now, or `None` once the setup has ended.
    pub fn prompt(&self) -> (r: Option<Prompt>)
        ensures
            (self.step == WizardStep::Finished || self.step == WizardStep::Aborted) <==> r is None,
            r matches Some(p) ==> p.label@ == step_prompt(self.step).0 && p.default@ == step_prompt(
                self.step,
            ).1,
            r matches Some(p) ==> p.default@ == match self.step {
                WizardStep::ConfirmOverwrite => "n"@,
                WizardStep::Port => "563"@,
                WizardStep::Ssl => "y"@,
                WizardStep::Connections => "10"@,
                WizardStep::Groups => "alt.binaries.test"@,
                WizardStep::Par2 => "10"@,
                _ => ""@,
            },
    {
        let (label, default) = match self.step {
            WizardStep::ConfirmOverwrite => ("Config already exists; overwrite it? (y/N)", "n"),
            WizardStep::Host => ("NNTP server hostname", ""),
            WizardStep::Port => ("Server port", "563"),
            WizardStep::Ssl => ("Use TLS? (Y/n)", "y"),
            WizardStep::Connections => ("Parallel connections", "10"),
            WizardStep::Username => ("Username (blank for none)", ""),
            WizardStep::Password => ("Password", ""),
            WizardStep::Groups => ("Newsgroups (comma-separated)", "alt.binaries.test"),
            WizardStep::From => ("From header (blank = random identity per run)", ""),
            WizardStep::Par2 => ("PAR2 recovery percentage (0 disables)", "10"),
            WizardStep::Finished => {
                return None;
            },
            WizardStep::Aborted => {
                return None;
            },
        };
        Some(Prompt { label: text_of(label), default: text_of(default) })
    }

    /// Takes the line the user typed for the current question. Returns
    /// `false`, and stays on the question, only when the host name is left
    /// empty (it is required).
    pub fn answer(&mut self, line: &str) -> (accepted: bool)
        ensures
            old(self).host_given() ==> final(self).host_given(),
            trimmed(line@).len() == 0 ==> match old(self).step {
                WizardStep::ConfirmOverwrite => accepted && final(self).step == WizardStep::Aborted,
                WizardStep::Host => !accepted && *final(self) == *old(self),
                WizardStep::Port => accepted && final(self).answers.port@ == "563"@,
                WizardStep::Ssl => accepted && final(self).answers.ssl,
                WizardStep::Connections => accepted && final(self).answers.connections@ == "10"@,
                WizardStep::Username => accepted && final(self).answers.username@.len() == 0
                    && final(self).answers.password@.len() == 0 && final(self).step
                    == WizardStep::Groups,
                WizardStep::Password => accepted && final(self).answers.password@.len() == 0,
                WizardStep::Groups => accepted && final(self).answers.groups@ == "alt.binaries.test"@,
                WizardStep::From => accepted && final(self).answers.from@.len() == 0,
                WizardStep::Par2 => accepted && final(self).answers.par2@ == "10"@,
                _ => !accepted && *final(self) == *old(self),
            },
            trimmed(line@).len() > 0 ==> match old(self).step {
                WizardStep::ConfirmOverwrite => accepted && final(self).step == if trimmed(line@)
                    == "y"@ || trimmed(line@) == "Y"@ {
                    WizardStep::Host
                } else {
                    WizardStep::Aborted
                },
                WizardStep::Host => accepted && final(self).answers.host@ == trimmed(line@),
                WizardStep::Port => accepted && final(self).answers.port@ == trimmed(line@),
                WizardStep::Ssl => accepted && final(self).answers.ssl == !(trimmed(line@) == "n"@
                    || trimmed(line@) == "N"@),
                WizardStep::Connections => accepted && final(self).answers.connections@ == trimmed(
                    line@,
                ),
                WizardStep::Username => accepted && final(self).answers.username@ == trimmed(line@)
                    && final(self).step == WizardStep::Password,
                WizardStep::Password => accepted && final(self).answers.password@ == trimmed(line@),
                WizardStep::Groups => accepted && final(self).answers.groups@ == trimmed(line@),
                WizardStep::From => accepted && final(self).answers.from@ == trimmed(line@),
                WizardStep::Par2 => accepted && final(self).answers.par2@ == trimmed(line@),
                _ => !accepted && *final(self) == *old(self),
            },
            ({
                let a = answer_text(line@, step_prompt(old(self).step).1);
                let o = *old(self);
                let n = *final(self);
                match o.step {
                    WizardStep::ConfirmOverwrite => accepted && n.answers == o.answers && n.step == if is_letter_answer(a, 'y', 'Y') {
                        WizardStep::Host
                    } else {
                        WizardStep::Aborted
                    },
                    WizardStep::Host => if a.len() == 0 {
                        !accepted && n == o
                    } else {
                        accepted && n.step == WizardStep::Port && n.answers.host@ == a
                            && n.answers.port == o.answers.port && n.answers.ssl == o.answers.ssl
                            && n.answers.connections == o.answers.connections
                            && n.answers.username == o.answers.username
                            && n.answers.password == o.answers.password
                            && n.answers.groups == o.answers.groups && n.answers.from == o.answers.from
                            && n.answers.par2 == o.answers.par2
                    },
                    WizardStep::Port => accepted && n.step == WizardStep::Ssl && n.answers.port@ == a
                        && n.answers.host == o.answers.host && n.answers.ssl == o.answers.ssl
                        && n.answers.connections == o.answers.connections
                        && n.answers.username == o.answers.username
                        && n.answers.password == o.answers.password
                        && n.answers.groups == o.answers.groups && n.answers.from == o.answers.from
                        && n.answers.par2 == o.answers.par2,
                    WizardStep::Ssl => accepted && n.step == WizardStep::Connections
                        && n.answers.ssl == !is_letter_answer(a, 'n', 'N')
                        && n.answers.host == o.answers.host && n.answers.port == o.answers.port
                        && n.answers.connections == o.answers.connections
                        && n.answers.username == o.answers.username
                        && n.answers.password == o.answers.password
                        && n.answers.groups == o.answers.groups && n.answers.from == o.answers.from
                        && n.answers.par2 == o.answers.par2,
                    WizardStep::Connections => accepted && n.step == WizardStep::Username
                        && n.answers.connections@ == a && n.answers.host == o.answers.host
                        && n.answers.port == o.answers.port && n.answers.ssl == o.answers.ssl
                        && n.answers.username == o.answers.username
                        && n.answers.password == o.answers.password
                        && n.answers.groups == o.answers.groups && n.answers.from == o.answers.from
                        && n.answers.par2 == o.answers.par2,
                    WizardStep::Username => accepted && n.answers.username@ == a
                        && n.step == if a.len() == 0 { WizardStep::Groups } else { WizardStep::Password }
                        && (a.len() == 0 ==> n.answers.password@.len() == 0)
                        && (a.len() > 0 ==> n.answers.password == o.answers.password)
                        && n.answers.host == o.answers.host && n.answers.port == o.answers.port
                        && n.answers.ssl == o.answers.ssl
                        && n.answers.connections == o.answers.connections
                        && n.answers.groups == o.answers.groups && n.answers.from == o.answers.from
                        && n.answers.par2 == o.answers.par2,
                    WizardStep::Password => accepted && n.step == WizardStep::Groups
                        && n.answers.password@ == a && n.answers.host == o.answers.host
                        && n.answers.port == o.answers.port && n.answers.ssl == o.answers.ssl
                        && n.answers.connections == o.answers.connections
                        && n.answers.username == o.answers.username
                        && n.answers.groups == o.answers.groups && n.answers.from == o.answers.from
                        && n.answers.par2 == o.answers.par2,
                    WizardStep::Groups => accepted && n.step == WizardStep::From
                        && n.answers.groups@ == a && n.answers.host == o.answers.host
                        && n.answers.port == o.answers.port && n.answers.ssl == o.answers.ssl
                        && n.answers.connections == o.answers.connections
                        && n.answers.username == o.answers.username
                        && n.answers.password == o.answers.password
                        && n.answers.from == o.answers.from && n.answers.par2 == o.answers.par2,
                    WizardStep::From => accepted && n.step == WizardStep::Par2 && n.answers.from@ == a
                        && n.answers.host == o.answers.host && n.answers.port == o.answers.port
                        && n.answers.ssl == o.answers.ssl
                        && n.answers.connections == o.answers.connections
                        && n.answers.username == o.answers.username
                        && n.answers.password == o.answers.password
                        && n.answers.groups == o.answers.groups && n.answers.par2 == o.answers.par2,
                    WizardStep::Par2 => accepted && n.step == WizardStep::Finished
                        && n.answers.par2@ == a && n.answers.host == o.answers.host
                        && n.answers.port == o.answers.port && n.answers.ssl == o.answers.ssl
                        && n.answers.connections == o.answers.connections
                        && n.answers.username == o.answers.username
                        && n.answers.password == o.answers.password
                        && n.answers.groups == o.answers.groups && n.answers.from == o.answers.from,
                    _ => !accepted && n == o,
                }
            }),
    {
        proof {
            reveal_strlit("y");
            reveal_strlit("Y");
            reveal_strlit("n");
            reveal_strlit("N");
            assert("y"@ =~= seq!['y']);
            assert("Y"@ =~= seq!['Y']);
            assert("n"@ =~= seq!['n']);
            assert("N"@ =~= seq!['N']);
            reveal_strlit("");
            assert(""@.len() == 0);
            assert(!is_letter_answer("n"@, 'y', 'Y')) by {
                assert("n"@[0] != seq!['y'][0]);
                assert("n"@[0] != seq!['Y'][0]);
            }
            assert(!is_letter_answer("y"@, 'n', 'N')) by {
                assert("y"@[0] != seq!['n'][0]);
                assert("y"@[0] != seq!['N'][0]);
            }
        }
        let (label, default) = match self.step {
            WizardStep::ConfirmOverwrite => ("Config already exists; overwrite it? (y/N)", "n"),
            WizardStep::Host => ("NNTP server hostname", ""),
            WizardStep::Port => ("Server port", "563"),
            WizardStep::Ssl => ("Use TLS? (Y/n)", "y"),
            WizardStep::Connections => ("Parallel connections", "10"),
            WizardStep::Username => ("Username (blank for none)", ""),
            WizardStep::Password => ("Password", ""),
            WizardStep::Groups => ("Newsgroups (comma-separated)", "alt.binaries.test"),
            WizardStep::From => ("From header (blank = random identity per run)", ""),
            WizardStep::Par2 => ("PAR2 recovery percentage (0 disables)", "10"),
            _ => {
                return false;
            },
        };
        let a = answer(line, default);
        match self.step {
            WizardStep::ConfirmOverwrite => {
                if is_single(a.as_str(), 'y') || is_single(a.as_str(), 'Y') {
                    self.step = WizardStep::Host;
                } else {
                    self.step = WizardStep::Aborted;
                }
            },
            WizardStep::Host => {
                if a.as_str().is_empty() {
                    return false;
                }
                self.answers.host = a;
                self.step = WizardStep::Port;
            },
            WizardStep::Port => {
                self.answers.port = a;
                self.step = WizardStep::Ssl;
            },
            WizardStep::Ssl => {
                self.answers.ssl = !(is_single(a.as_str(), 'n') || is_single(a.as_str(), 'N'));
                self.step = WizardStep::Connections;
            },
            WizardStep::Connections => {
                self.answers.connections = a;
                self.step = WizardStep::Username;
            },
            WizardStep::Username => {
                if a.as_str().is_empty() {
                    self.answers.password = empty_text();
                    self.step = WizardStep::Groups;
                } else {
                    self.step = WizardStep::Password;
                }
                self.answers.username = a;
            },
            WizardStep::Password => {
                self.answers.password = a;
                self.step = WizardStep::Groups;
            },
            WizardStep::Groups => {
                self.answers.groups = a;
                self.step = WizardStep::From;
            },
            WizardStep::From => {
                self.answers.from = a;
                self.step = WizardStep::Par2;
            },
            _ => {
                self.answers.par2 = a;
                self.step = WizardStep::Finished;
            },
        }
        true
    }
}

/// A blank (or white-space-only) line takes each question's default: no
/// overwrite, port 563, TLS on, 10 connections, no user name, no password,
/// the newsgroup alt.binaries.test, a random identity, 10% PAR2.
pub proof fn law_blank_line_takes_default(line: Seq<char>)
    requires
        trimmed(line).len() == 0,
    ensures
        !is_letter_answer(answer_text(line, step_prompt(WizardStep::ConfirmOverwrite).1), 'y', 'Y'),
        answer_text(line, step_prompt(WizardStep::Host).1).len() == 0,
        answer_text(line, step_prompt(WizardStep::Port).1) == "563"@,
        !is_letter_answer(answer_text(line, step_prompt(WizardStep::Ssl).1), 'n', 'N'),
        answer_text(line, step_prompt(WizardStep::Connections).1) == "10"@,
        answer_text(line, step_prompt(WizardStep::Username).1).len() == 0,
        answer_text(line, step_prompt(WizardStep::Password).1).len() == 0,
        answer_text(line, step_prompt(WizardStep::Groups).1) == "alt.binaries.test"@,
        answer_text(line, step_prompt(WizardStep::From).1).len() == 0,
        answer_text(line, step_prompt(WizardStep::Par2).1) == "10"@,
{
    reveal_strlit("");
    reveal_strlit("y");
    reveal_strlit("n");
    assert(""@.len() == 0);
    assert("n"@[0] != seq!['y'][0]);
    assert("n"@[0] != seq!['Y'][0]);
    assert("y"@[0] != seq!['n'][0]);
    assert("y"@[0] != seq!['N'][0]);
}

} // verus!
