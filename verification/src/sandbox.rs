//! The tool sandbox's validation layer: model-issued shell commands are
//! checked against a deny list, traversal and substitution patterns, and an
//! absolute-path rule before anything is executed. A rejected command is
//! never rewritten; the rejection names its category.

use base64::Engine;
use vstd::prelude::*;
use vstd::slice::slice_subrange;
use vstd::string::StringExecFns;
use vstd::string::StringSliceAdditionalSpecFns;

use crate::strutil::{bytes_eq, contains_byte, contains_seq, has_byte, has_prefix, has_seq,
    starts_with};

verus! {

/// ASCII whitespace, the separators commands are tokenized on.
pub open spec fn is_space_byte(b: u8) -> bool {
    b == 32 || b == 9 || b == 10 || b == 13 || b == 11 || b == 12
}

fn is_space_exec(b: u8) -> (r: bool)
    ensures
        r == is_space_byte(b),
{
    b == 32 || b == 9 || b == 10 || b == 13 || b == 11 || b == 12
}

/// Leading shell metacharacters stripped from a token before path checks.
pub open spec fn is_shell_meta(b: u8) -> bool {
    b == 62 || b == 60 || b == 61 || b == 124 || b == 59 || b == 38 || b == 40
}

fn is_shell_meta_exec(b: u8) -> (r: bool)
    ensures
        r == is_shell_meta(b),
{
    b == 62 || b == 60 || b == 61 || b == 124 || b == 59 || b == 38 || b == 40
}

/// A word character, as the absolute-path rule counts them.
pub open spec fn is_word_byte(b: u8) -> bool {
    (65 <= b <= 90) || (97 <= b <= 122) || (48 <= b <= 57) || b == 95
}

fn is_word_exec(b: u8) -> (r: bool)
    ensures
        r == is_word_byte(b),
{
    (65 <= b && b <= 90) || (97 <= b && b <= 122) || (48 <= b && b <= 57) || b == 95
}

/// Drop leading ASCII whitespace.
pub open spec fn trim_start_spec(s: Seq<u8>) -> Seq<u8>
    decreases s.len(),
{
    if s.len() > 0 && is_space_byte(s[0]) {
        trim_start_spec(s.drop_first())
    } else {
        s
    }
}

/// Drop trailing ASCII whitespace.
pub open spec fn trim_end_spec(s: Seq<u8>) -> Seq<u8>
    decreases s.len(),
{
    if s.len() > 0 && is_space_byte(s[s.len() - 1]) {
        trim_end_spec(s.drop_last())
    } else {
        s
    }
}

/// The command with surrounding ASCII whitespace removed.
pub open spec fn cmd_trim(s: Seq<u8>) -> Seq<u8> {
    trim_end_spec(trim_start_spec(s))
}

fn trim_start_exec<'a>(s: &'a [u8]) -> (r: &'a [u8])
    ensures
        r@ == trim_start_spec(s@),
    decreases s@.len(),
{
    if s.len() > 0 && is_space_exec(s[0]) {
        let rest = slice_subrange(s, 1, s.len());
        proof {
            assert(rest@ =~= s@.drop_first());
        }
        trim_start_exec(rest)
    } else {
        s
    }
}

fn trim_end_exec<'a>(s: &'a [u8]) -> (r: &'a [u8])
    ensures
        r@ == trim_end_spec(s@),
    decreases s@.len(),
{
    if s.len() > 0 && is_space_exec(s[s.len() - 1]) {
        let rest = slice_subrange(s, 0, s.len() - 1);
        proof {
            assert(rest@ =~= s@.drop_last());
        }
        trim_end_exec(rest)
    } else {
        s
    }
}

pub(crate) fn trim_exec<'a>(s: &'a [u8]) -> (r: &'a [u8])
    ensures
        r@ == cmd_trim(s@),
{
    trim_end_exec(trim_start_exec(s))
}

/// Drop leading shell metacharacters from a token.
pub open spec fn strip_meta(t: Seq<u8>) -> Seq<u8>
    decreases t.len(),
{
    if t.len() > 0 && is_shell_meta(t[0]) {
        strip_meta(t.drop_first())
    } else {
        t
    }
}

fn strip_meta_exec<'a>(t: &'a [u8]) -> (r: &'a [u8])
    ensures
        r@ == strip_meta(t@),
    decreases t@.len(),
{
    if t.len() > 0 && is_shell_meta_exec(t[0]) {
        let rest = slice_subrange(t, 1, t.len());
        proof {
            assert(rest@ =~= t@.drop_first());
        }
        strip_meta_exec(rest)
    } else {
        t
    }
}

/// Index `i` begins a whitespace-separated token of `s`.
pub open spec fn token_start(s: Seq<u8>, i: int) -> bool {
    0 <= i < s.len() && !is_space_byte(s[i]) && (i == 0 || is_space_byte(s[i - 1]))
}

/// Where the token beginning at `i` ends (exclusive).
pub open spec fn token_end(s: Seq<u8>, i: int) -> int
    decreases s.len() - i,
    when 0 <= i <= s.len()
{
    if i == s.len() || is_space_byte(s[i]) {
        i
    } else {
        token_end(s, i + 1)
    }
}

proof fn lemma_token_end(s: Seq<u8>, i: int)
    requires
        0 <= i <= s.len(),
    ensures
        i <= token_end(s, i) <= s.len(),
        forall|k: int| i <= k < token_end(s, i) ==> !is_space_byte(s[k]),
        token_end(s, i) == s.len() || is_space_byte(s[token_end(s, i)]),
    decreases s.len() - i,
{
    if i == s.len() || is_space_byte(s[i]) {
    } else {
        lemma_token_end(s, i + 1);
    }
}

fn token_end_exec(s: &[u8], i: usize) -> (r: usize)
    requires
        i <= s@.len(),
    ensures
        r == token_end(s@, i as int),
        i <= r <= s@.len(),
    decreases s@.len() - i,
{
    proof {
        lemma_token_end(s@, i as int);
    }
    if i == s.len() || is_space_exec(s[i]) {
        i
    } else {
        token_end_exec(s, i + 1)
    }
}

/// A cleaned token that names the parent directory or reaches through it.
pub open spec fn traversal_token(t: Seq<u8>) -> bool {
    ||| t == "..".spec_bytes()
    ||| has_prefix(t, "../".spec_bytes())
    ||| contains_seq(t, "/..".spec_bytes())
}

/// Some token of the trimmed command, after cleaning, traverses upward.
pub open spec fn has_traversal_token(s: Seq<u8>) -> bool {
    exists|i: int|
        #[trigger] token_start(s, i) && traversal_token(strip_meta(s.subrange(i, token_end(s, i))))
}

/// The token holds a slash immediately followed by a word character: the
/// shape of an absolute path component.
pub open spec fn slash_word(t: Seq<u8>) -> bool {
    exists|k: int| 0 <= k && k + 1 < t.len() && t[k] == 47 && is_word_byte(t[#[trigger] (k + 1)])
}

/// A cleaned token that looks like an absolute path and is not the null
/// device, the one exempt path.
pub open spec fn absolute_token(t: Seq<u8>) -> bool {
    slash_word(t) && !has_prefix(t, "/dev/null".spec_bytes())
}

/// Some token of the trimmed command, after cleaning, is a non-exempt
/// absolute path.
pub open spec fn has_absolute_token(s: Seq<u8>) -> bool {
    exists|i: int|
        #[trigger] token_start(s, i) && absolute_token(strip_meta(s.subrange(i, token_end(s, i))))
}

fn traversal_token_exec(t: &[u8]) -> (r: bool)
    ensures
        r == traversal_token(t@),
{
    bytes_eq(t, "..".as_bytes()) || starts_with(t, "../".as_bytes()) || has_seq(
        t,
        "/..".as_bytes(),
    )
}

fn slash_word_exec(t: &[u8]) -> (r: bool)
    ensures
        r == slash_word(t@),
{
    let n = t.len();
    if n < 2 {
        return false;
    }
    let mut k: usize = 0;
    while k < n - 1
        invariant
            n == t@.len(),
            2 <= n,
            k <= n - 1,
            forall|j: int| 0 <= j < k ==> !(t@[j] == 47 && is_word_byte(t@[#[trigger] (j + 1)])),
        decreases n - k,
    {
        if t[k] == 47 && is_word_exec(t[k + 1]) {
            return true;
        }
        k += 1;
    }
    false
}

fn absolute_token_exec(t: &[u8]) -> (r: bool)
    ensures
        r == absolute_token(t@),
{
    slash_word_exec(t) && !starts_with(t, "/dev/null".as_bytes())
}

/// Scan the tokens of `s` for a traversal token.
fn scan_traversal(s: &[u8]) -> (r: bool)
    ensures
        r == has_traversal_token(s@),
{
    let n = s.len();
    let mut i: usize = 0;
    while i < n
        invariant
            n == s@.len(),
            i <= n,
            forall|st: int|
                0 <= st < i && #[trigger] token_start(s@, st) ==> !traversal_token(
                    strip_meta(s@.subrange(st, token_end(s@, st))),
                ),
        decreases n - i,
    {
        let starts = !is_space_exec(s[i]) && (i == 0 || is_space_exec(s[i - 1]));
        if starts {
            let j = token_end_exec(s, i);
            proof {
                lemma_token_end(s@, i as int);
            }
            let tok = slice_subrange(s, i, j);
            let clean = strip_meta_exec(tok);
            if traversal_token_exec(clean) {
                proof {
                    assert(token_start(s@, i as int));
                }
                return true;
            }
            proof {
                assert forall|st: int| 0 <= st < j && #[trigger] token_start(s@, st)
                    implies !traversal_token(
                    strip_meta(s@.subrange(st, token_end(s@, st))),
                ) by {
                    if st > i {
                        assert(!is_space_byte(s@[st - 1]));
                    }
                }
            }
            i = j;
        } else {
            i += 1;
        }
    }
    false
}

/// Scan the tokens of `s` for a non-exempt absolute path.
fn scan_absolute(s: &[u8]) -> (r: bool)
    ensures
        r == has_absolute_token(s@),
{
    let n = s.len();
    let mut i: usize = 0;
    while i < n
        invariant
            n == s@.len(),
            i <= n,
            forall|st: int|
                0 <= st < i && #[trigger] token_start(s@, st) ==> !absolute_token(
                    strip_meta(s@.subrange(st, token_end(s@, st))),
                ),
        decreases n - i,
    {
        let starts = !is_space_exec(s[i]) && (i == 0 || is_space_exec(s[i - 1]));
        if starts {
            let j = token_end_exec(s, i);
            proof {
                lemma_token_end(s@, i as int);
            }
            let tok = slice_subrange(s, i, j);
            let clean = strip_meta_exec(tok);
            if absolute_token_exec(clean) {
                proof {
                    assert(token_start(s@, i as int));
                }
                return true;
            }
            proof {
                assert forall|st: int| 0 <= st < j && #[trigger] token_start(s@, st)
                    implies !absolute_token(
                    strip_meta(s@.subrange(st, token_end(s@, st))),
                ) by {
                    if st > i {
                        assert(!is_space_byte(s@[st - 1]));
                    }
                }
            }
            i = j;
        } else {
            i += 1;
        }
    }
    false
}

/// The deny list: the first listed prefix the trimmed command starts with,
/// if any. Privilege escalation, destructive recursive delete, remote-access
/// tools, foreign interpreters, process control, disk and mount utilities,
/// package managers, and browser openers are all refused.
pub open spec fn deny_prefix(t: Seq<u8>) -> Option<Seq<char>> {
    if has_prefix(t, "sudo".spec_bytes()) {
        Some("sudo"@)
    } else if has_prefix(t, "su ".spec_bytes()) {
        Some("su "@)
    } else if has_prefix(t, "rm -rf /".spec_bytes()) {
        Some("rm -rf /"@)
    } else if has_prefix(t, "chmod".spec_bytes()) {
        Some("chmod"@)
    } else if has_prefix(t, "chown".spec_bytes()) {
        Some("chown"@)
    } else if has_prefix(t, "kill".spec_bytes()) {
        Some("kill"@)
    } else if has_prefix(t, "pkill".spec_bytes()) {
        Some("pkill"@)
    } else if has_prefix(t, "curl".spec_bytes()) {
        Some("curl"@)
    } else if has_prefix(t, "wget".spec_bytes()) {
        Some("wget"@)
    } else if has_prefix(t, "nc ".spec_bytes()) {
        Some("nc "@)
    } else if has_prefix(t, "ncat".spec_bytes()) {
        Some("ncat"@)
    } else if has_prefix(t, "ssh".spec_bytes()) {
        Some("ssh"@)
    } else if has_prefix(t, "scp".spec_bytes()) {
        Some("scp"@)
    } else if has_prefix(t, "sftp".spec_bytes()) {
        Some("sftp"@)
    } else if has_prefix(t, "node".spec_bytes()) {
        Some("node"@)
    } else if has_prefix(t, "ruby".spec_bytes()) {
        Some("ruby"@)
    } else if has_prefix(t, "perl".spec_bytes()) {
        Some("perl"@)
    } else if has_prefix(t, "bash".spec_bytes()) {
        Some("bash"@)
    } else if has_prefix(t, "sh ".spec_bytes()) {
        Some("sh "@)
    } else if has_prefix(t, "zsh".spec_bytes()) {
        Some("zsh"@)
    } else if has_prefix(t, "export".spec_bytes()) {
        Some("export"@)
    } else if has_prefix(t, "source".spec_bytes()) {
        Some("source"@)
    } else if has_prefix(t, "eval".spec_bytes()) {
        Some("eval"@)
    } else if has_prefix(t, "exec".spec_bytes()) {
        Some("exec"@)
    } else if has_prefix(t, "mount".spec_bytes()) {
        Some("mount"@)
    } else if has_prefix(t, "umount".spec_bytes()) {
        Some("umount"@)
    } else if has_prefix(t, "dd ".spec_bytes()) {
        Some("dd "@)
    } else if has_prefix(t, "mkfs".spec_bytes()) {
        Some("mkfs"@)
    } else if has_prefix(t, "fdisk".spec_bytes()) {
        Some("fdisk"@)
    } else if has_prefix(t, "apt".spec_bytes()) {
        Some("apt"@)
    } else if has_prefix(t, "brew".spec_bytes()) {
        Some("brew"@)
    } else if has_prefix(t, "npm".spec_bytes()) {
        Some("npm"@)
    } else if has_prefix(t, "yarn".spec_bytes()) {
        Some("yarn"@)
    } else if has_prefix(t, "open ".spec_bytes()) {
        Some("open "@)
    } else if has_prefix(t, "xdg-open".spec_bytes()) {
        Some("xdg-open"@)
    } else {
        None
    }
}

fn deny_prefix_exec(t: &[u8]) -> (r: Option<&'static str>)
    ensures
        match r {
            Some(p) => deny_prefix(t@) == Some(p@),
            None => deny_prefix(t@) is None,
        },
{
    if starts_with(t, "sudo".as_bytes()) {
        Some("sudo")
    } else if starts_with(t, "su ".as_bytes()) {
        Some("su ")
    } else if starts_with(t, "rm -rf /".as_bytes()) {
        Some("rm -rf /")
    } else if starts_with(t, "chmod".as_bytes()) {
        Some("chmod")
    } else if starts_with(t, "chown".as_bytes()) {
        Some("chown")
    } else if starts_with(t, "kill".as_bytes()) {
        Some("kill")
    } else if starts_with(t, "pkill".as_bytes()) {
        Some("pkill")
    } else if starts_with(t, "curl".as_bytes()) {
        Some("curl")
    } else if starts_with(t, "wget".as_bytes()) {
        Some("wget")
    } else if starts_with(t, "nc ".as_bytes()) {
        Some("nc ")
    } else if starts_with(t, "ncat".as_bytes()) {
        Some("ncat")
    } else if starts_with(t, "ssh".as_bytes()) {
        Some("ssh")
    } else if starts_with(t, "scp".as_bytes()) {
        Some("scp")
    } else if starts_with(t, "sftp".as_bytes()) {
        Some("sftp")
    } else if starts_with(t, "node".as_bytes()) {
        Some("node")
    } else if starts_with(t, "ruby".as_bytes()) {
        Some("ruby")
    } else if starts_with(t, "perl".as_bytes()) {
        Some("perl")
    } else if starts_with(t, "bash".as_bytes()) {
        Some("bash")
    } else if starts_with(t, "sh ".as_bytes()) {
        Some("sh ")
    } else if starts_with(t, "zsh".as_bytes()) {
        Some("zsh")
    } else if starts_with(t, "export".as_bytes()) {
        Some("export")
    } else if starts_with(t, "source".as_bytes()) {
        Some("source")
    } else if starts_with(t, "eval".as_bytes()) {
        Some("eval")
    } else if starts_with(t, "exec".as_bytes()) {
        Some("exec")
    } else if starts_with(t, "mount".as_bytes()) {
        Some("mount")
    } else if starts_with(t, "umount".as_bytes()) {
        Some("umount")
    } else if starts_with(t, "dd ".as_bytes()) {
        Some("dd ")
    } else if starts_with(t, "mkfs".as_bytes()) {
        Some("mkfs")
    } else if starts_with(t, "fdisk".as_bytes()) {
        Some("fdisk")
    } else if starts_with(t, "apt".as_bytes()) {
        Some("apt")
    } else if starts_with(t, "brew".as_bytes()) {
        Some("brew")
    } else if starts_with(t, "npm".as_bytes()) {
        Some("npm")
    } else if starts_with(t, "yarn".as_bytes()) {
        Some("yarn")
    } else if starts_with(t, "open ".as_bytes()) {
        Some("open ")
    } else if starts_with(t, "xdg-open".as_bytes()) {
        Some("xdg-open")
    } else {
        None
    }
}

/// What validation says about a trimmed command: the rejection message, or
/// nothing for an accepted command. Checks are ordered: emptiness, the deny
/// list, traversal tokens, substitution and expansion patterns, absolute
/// paths.
pub open spec fn validation_error(t: Seq<u8>) -> Option<Seq<char>> {
    if t.len() == 0 {
        Some("Blocked: empty command."@)
    } else if deny_prefix(t) is Some {
        Some("Blocked: '"@ + deny_prefix(t)->Some_0 + "' commands are not allowed."@)
    } else if has_traversal_token(t) {
        Some("Blocked: '..' path traversal is not allowed in commands."@)
    } else if contains_byte(t, 96) {
        Some("Blocked: backtick command substitution is not allowed."@)
    } else if contains_seq(t, "$(".spec_bytes()) {
        Some("Blocked: command substitution $() is not allowed."@)
    } else if contains_seq(t, "${".spec_bytes()) {
        Some("Blocked: variable expansion ${} is not allowed."@)
    } else if contains_byte(t, 126) {
        Some("Blocked: '~' (home expansion) is not allowed."@)
    } else if has_absolute_token(t) {
        Some("Blocked: absolute paths are not allowed. Use relative paths only."@)
    } else {
        None
    }
}

/// A command passes validation when nothing in it is refused.
pub open spec fn command_allowed(cmd: Seq<char>) -> bool {
    validation_error(cmd_trim(vstd::utf8::encode_utf8(cmd))) is None
}

/// Validate a model-issued shell command before any execution. Returns the
/// category-identifying rejection message, or `None` for an accepted
/// command. A rejected command is never rewritten or executed.
pub fn validate_command(command: &str) -> (r: Option<String>)
    ensures
        match r {
            Some(msg) => validation_error(cmd_trim(command.spec_bytes())) == Some(msg@),
            None => validation_error(cmd_trim(command.spec_bytes())) is None,
        },
        r is None <==> command_allowed(command@),
{
    let bytes = command.as_bytes();
    let t = trim_exec(bytes);
    if t.len() == 0 {
        return Some(String::from_str("Blocked: empty command."));
    }
    match deny_prefix_exec(t) {
        Some(p) => {
            let mut msg = String::from_str("Blocked: '");
            msg.append(p);
            msg.append("' commands are not allowed.");
            return Some(msg);
        },
        None => {},
    }
    if scan_traversal(t) {
        return Some(String::from_str("Blocked: '..' path traversal is not allowed in commands."));
    }
    if has_byte(t, 96) {
        return Some(
            String::from_str("Blocked: backtick command substitution is not allowed."),
        );
    }
    if has_seq(t, "$(".as_bytes()) {
        return Some(String::from_str("Blocked: command substitution $() is not allowed."));
    }
    if has_seq(t, "${".as_bytes()) {
        return Some(String::from_str("Blocked: variable expansion ${} is not allowed."));
    }
    if has_byte(t, 126) {
        return Some(String::from_str("Blocked: '~' (home expansion) is not allowed."));
    }
    if scan_absolute(t) {
        return Some(
            String::from_str("Blocked: absolute paths are not allowed. Use relative paths only."),
        );
    }
    None
}


// ---------------------------------------------------------------------------
// Execution-side rewriting
// ---------------------------------------------------------------------------

/// Single-quote escaping from a position on: each quote becomes `'\\''`.
pub open spec fn esc_quotes_from(s: Seq<char>, i: int) -> Seq<char>
    decreases s.len() - i,
    when 0 <= i
{
    if i >= s.len() {
        Seq::empty()
    } else if s[i] == '\'' {
        seq!['\'', '\\', '\'', '\''] + esc_quotes_from(s, i + 1)
    } else {
        seq![s[i]] + esc_quotes_from(s, i + 1)
    }
}

/// How a string is written as one shell word: quoted (with inner quotes
/// escaped) when it holds a space, quote or double quote, else unchanged.
pub open spec fn shell_escape_spec(s: Seq<char>) -> Seq<char> {
    if crate::strutil::contains_char(s, ' ') || crate::strutil::contains_char(s, '\'')
        || crate::strutil::contains_char(s, '"') {
        seq!['\''] + esc_quotes_from(s, 0) + seq!['\'']
    } else {
        s
    }
}

/// Quote a string for the shell when it needs it.
pub fn shell_escape(s: &str) -> (r: String)
    ensures
        r@ == shell_escape_spec(s@),
{
    let chars = crate::strutil::str_chars(s);
    let needs = crate::strutil::has_char(chars.as_slice(), ' ') || crate::strutil::has_char(
        chars.as_slice(),
        '\'',
    ) || crate::strutil::has_char(chars.as_slice(), '"');
    if !needs {
        return s.to_owned();
    }
    let n = chars.len();
    let mut out: Vec<char> = Vec::new();
    out.push('\'');
    let mut i: usize = 0;
    proof {
        assert(out@ =~= seq!['\''] + esc_quotes_from(chars@, 0).subrange(0, 0));
        assert(seq!['\''] + esc_quotes_from(chars@, 0) =~= out@ + esc_quotes_from(chars@, 0));
    }
    while i < n
        invariant
            i <= n,
            n == chars@.len(),
            seq!['\''] + esc_quotes_from(chars@, 0) == out@ + esc_quotes_from(chars@, i as int),
        decreases n - i,
    {
        let c = chars[i];
        if c == '\'' {
            proof {
                assert(out@ + (seq!['\'', '\\', '\'', '\''] + esc_quotes_from(chars@, i + 1))
                    =~= out@.push('\'').push('\\').push('\'').push('\'') + esc_quotes_from(
                    chars@,
                    i + 1,
                ));
            }
            out.push('\'');
            out.push('\\');
            out.push('\'');
            out.push('\'');
        } else {
            proof {
                assert(out@ + (seq![c] + esc_quotes_from(chars@, i + 1)) =~= out@.push(c)
                    + esc_quotes_from(chars@, i + 1));
            }
            out.push(c);
        }
        i += 1;
    }
    proof {
        assert(esc_quotes_from(chars@, n as int) =~= Seq::<char>::empty());
        assert(out@ + Seq::<char>::empty() =~= out@);
    }
    out.push('\'');
    crate::strutil::chars_to_string(&out)
}

/// The agent's isolated-environment directory under its confined root.
pub fn venv_dir(env_root: &str) -> (r: String)
    ensures
        r@ == env_root@ + "/.venv"@,
{
    let mut out = String::from_str(env_root);
    out.append("/.venv");
    out
}

/// The isolated environment's interpreter path.
pub fn venv_python(env_root: &str) -> (r: String)
    ensures
        r@ == env_root@ + "/.venv/bin/python"@,
{
    let mut out = String::from_str(env_root);
    out.append("/.venv/bin/python");
    out
}

/// The isolated environment's binary directory.
pub fn venv_bin(env_root: &str) -> (r: String)
    ensures
        r@ == env_root@ + "/.venv/bin"@,
{
    let mut out = String::from_str(env_root);
    out.append("/.venv/bin");
    out
}

/// The PATH the sandboxed process runs with: the isolated environment's
/// binaries (when present) ahead of the two system directories.
pub fn sandbox_path_env(vbin: &str, has_venv_bin: bool) -> (r: String)
    ensures
        has_venv_bin ==> r@ == vbin@ + ":/usr/bin:/bin"@,
        !has_venv_bin ==> r@ == "/usr/bin:/bin"@,
{
    if has_venv_bin {
        let mut out = String::from_str(vbin);
        out.append(":/usr/bin:/bin");
        out
    } else {
        String::from_str("/usr/bin:/bin")
    }
}

/// What follows the interpreter word of a trimmed `python` command.
pub open spec fn python_rest(cmd: Seq<char>) -> Option<Seq<char>> {
    let t = crate::web::trim_chars(cmd);
    if crate::strutil::has_char_prefix(t, "python3"@) {
        Some(t.skip(7))
    } else if crate::strutil::has_char_prefix(t, "python"@) {
        Some(t.skip(6))
    } else {
        None
    }
}

/// Rewrite a `python`/`python3` invocation to run through the guard
/// wrapper inside the isolated environment, with the confined root's real
/// path as its first argument.
pub fn rewrite_python_cmd(command: &str, real_root: &str, python: &str, guard: &str) -> (r:
    Option<String>)
    ensures
        match r {
            Some(out) => python_rest(command@) is Some && out@ == shell_escape_spec(python@)
                + " "@ + shell_escape_spec(guard@) + " "@ + shell_escape_spec(real_root@)
                + python_rest(command@)->Some_0,
            None => python_rest(command@) is None,
        },
{
    let chars = crate::strutil::str_chars(command);
    let t = crate::web::trim_chars_exec(chars.as_slice());
    let p3: &[char] = &['p', 'y', 't', 'h', 'o', 'n', '3'];
    let p2: &[char] = &['p', 'y', 't', 'h', 'o', 'n'];
    proof {
        reveal_strlit("python3");
        reveal_strlit("python");
        assert(p3@ =~= "python3"@);
        assert(p2@ =~= "python"@);
    }
    let cut: usize = if crate::strutil::starts_with_chars(t, p3) {
        7
    } else if crate::strutil::starts_with_chars(t, p2) {
        6
    } else {
        return None;
    };
    let rest = vstd::slice::slice_subrange(t, cut, t.len());
    proof {
        assert(rest@ =~= t@.skip(cut as int));
    }
    let mut out = shell_escape(python);
    out.append(" ");
    let e_guard = shell_escape(guard);
    out.append(e_guard.as_str());
    out.append(" ");
    let e_root = shell_escape(real_root);
    out.append(e_root.as_str());
    let mut rest_v: Vec<char> = Vec::new();
    let mut i: usize = 0;
    while i < rest.len()
        invariant
            i <= rest@.len(),
            rest_v@ == rest@.subrange(0, i as int),
        decreases rest@.len() - i,
    {
        rest_v.push(rest[i]);
        proof {
            assert(rest_v@ =~= rest@.subrange(0, i + 1));
        }
        i += 1;
    }
    proof {
        assert(rest_v@ =~= rest@);
    }
    let rest_s = crate::strutil::chars_to_string(&rest_v);
    out.append(rest_s.as_str());
    Some(out)
}

/// The position of the first space at or after `i`, or the length.
pub open spec fn first_space_at(s: Seq<char>, i: int) -> int
    decreases s.len() - i,
    when 0 <= i <= s.len()
{
    if i == s.len() || s[i] == ' ' {
        i
    } else {
        first_space_at(s, i + 1)
    }
}

proof fn lemma_first_space(s: Seq<char>, i: int)
    requires
        0 <= i <= s.len(),
    ensures
        i <= first_space_at(s, i) <= s.len(),
    decreases s.len() - i,
{
    if !(i == s.len() || s[i] == ' ') {
        lemma_first_space(s, i + 1);
    }
}

fn first_space_exec(s: &[char], i: usize) -> (r: usize)
    requires
        i <= s@.len(),
    ensures
        r == first_space_at(s@, i as int),
        i <= r <= s@.len(),
    decreases s@.len() - i,
{
    proof {
        lemma_first_space(s@, i as int);
    }
    if i == s.len() || s[i] == ' ' {
        i
    } else {
        first_space_exec(s, i + 1)
    }
}

/// How a `./script.py` invocation splits: the script word and what follows
/// its first space, if the command has that shape.
pub open spec fn script_parts(cmd: Seq<char>) -> Option<(Seq<char>, Seq<char>)> {
    let t = crate::web::trim_chars(cmd);
    if crate::strutil::has_char_prefix(t, "./"@) && contains_chars_seq(t, ".py"@) {
        let body = t.skip(2);
        let sp = first_space_at(body, 0);
        if sp < body.len() {
            Some((body.subrange(0, sp), body.skip(sp + 1)))
        } else {
            Some((body, Seq::empty()))
        }
    } else {
        None
    }
}

/// Does the char sequence contain the given pattern contiguously?
pub open spec fn contains_chars_seq(a: Seq<char>, p: Seq<char>) -> bool {
    exists|i: int| 0 <= i <= a.len() - p.len() && #[trigger] a.subrange(i, i + p.len()) == p
}

fn has_chars_seq(a: &[char], p: &[char]) -> (r: bool)
    ensures
        r == contains_chars_seq(a@, p@),
{
    let n = a.len();
    let plen = p.len();
    if plen > n {
        return false;
    }
    if plen == 0 {
        proof {
            let ii: int = 0;
            assert(a@.subrange(ii, ii + p@.len()) =~= p@);
        }
        return true;
    }
    let last = n - plen;
    let mut i: usize = 0;
    while i <= last
        invariant
            n == a@.len(),
            plen == p@.len(),
            1 <= plen <= n,
            last == n - plen,
            i <= last + 1,
            forall|j: int| 0 <= j < i ==> #[trigger] a@.subrange(j, j + p@.len()) != p@,
        decreases last + 1 - i,
    {
        let sub = vstd::slice::slice_subrange(a, i, i + plen);
        if crate::strutil::chars_eq(sub, p) {
            return true;
        }
        proof {
            assert(a@.subrange(i as int, i + p@.len()) != p@);
        }
        i += 1;
    }
    proof {
        assert forall|ii: int| 0 <= ii <= a@.len() - p@.len() implies #[trigger] a@.subrange(
            ii,
            ii + p@.len(),
        ) != p@ by {
            assert(ii < i);
        }
    }
    false
}

/// Rewrite a `./script.py` invocation through the guard wrapper.
pub fn rewrite_script_cmd(command: &str, real_root: &str, python: &str, guard: &str) -> (r:
    Option<String>)
    ensures
        match r {
            Some(out) => script_parts(command@) is Some && out@ == ({
                let parts = script_parts(command@)->Some_0;
                let head = shell_escape_spec(python@) + " "@ + shell_escape_spec(guard@) + " "@
                    + shell_escape_spec(real_root@) + " "@ + shell_escape_spec(parts.0);
                if parts.1.len() > 0 {
                    head + " "@ + parts.1
                } else {
                    head
                }
            }),
            None => script_parts(command@) is None,
        },
{
    let chars = crate::strutil::str_chars(command);
    let t = crate::web::trim_chars_exec(chars.as_slice());
    let dotslash: &[char] = &['.', '/'];
    let dotpy: &[char] = &['.', 'p', 'y'];
    proof {
        reveal_strlit("./");
        reveal_strlit(".py");
        assert(dotslash@ =~= "./"@);
        assert(dotpy@ =~= ".py"@);
    }
    if !(crate::strutil::starts_with_chars(t, dotslash) && has_chars_seq(t, dotpy)) {
        return None;
    }
    let body = vstd::slice::slice_subrange(t, 2, t.len());
    proof {
        assert(body@ =~= t@.skip(2));
    }
    let sp = first_space_exec(body, 0);
    let script = vstd::slice::slice_subrange(body, 0, sp);
    proof {
        if sp == body@.len() {
            assert(script@ =~= body@);
        }
    }
    let mut script_v: Vec<char> = Vec::new();
    let mut i: usize = 0;
    while i < script.len()
        invariant
            i <= script@.len(),
            script_v@ == script@.subrange(0, i as int),
        decreases script@.len() - i,
    {
        script_v.push(script[i]);
        proof {
            assert(script_v@ =~= script@.subrange(0, i + 1));
        }
        i += 1;
    }
    proof {
        assert(script_v@ =~= script@);
    }
    let script_s = crate::strutil::chars_to_string(&script_v);
    let mut out = shell_escape(python);
    out.append(" ");
    let e_guard = shell_escape(guard);
    out.append(e_guard.as_str());
    out.append(" ");
    let e_root = shell_escape(real_root);
    out.append(e_root.as_str());
    out.append(" ");
    let e_script = shell_escape(script_s.as_str());
    out.append(e_script.as_str());
    if sp < body.len() {
        let rest = vstd::slice::slice_subrange(body, sp + 1, body.len());
        proof {
            assert(rest@ =~= body@.skip(sp + 1));
        }
        if rest.len() > 0 {
            out.append(" ");
            let mut rest_v: Vec<char> = Vec::new();
            let mut j: usize = 0;
            while j < rest.len()
                invariant
                    j <= rest@.len(),
                    rest_v@ == rest@.subrange(0, j as int),
                decreases rest@.len() - j,
            {
                rest_v.push(rest[j]);
                proof {
                    assert(rest_v@ =~= rest@.subrange(0, j + 1));
                }
                j += 1;
            }
            proof {
                assert(rest_v@ =~= rest@);
            }
            let rest_s = crate::strutil::chars_to_string(&rest_v);
            out.append(rest_s.as_str());
        } else {
            proof {
                assert(body@.skip(sp + 1).len() == 0);
            }
        }
    }
    Some(out)
}

/// How a package-install command is redirected into the isolated
/// environment.
pub open spec fn pip_rewrite(cmd: Seq<char>, uv: Seq<char>, venv_py: Seq<char>) -> Option<
    Seq<char>,
> {
    let t = crate::web::trim_chars(cmd);
    if crate::strutil::has_char_prefix(t, "uv pip "@) {
        Some(
            shell_escape_spec(uv) + " pip "@ + t.skip(7) + " --python "@ + shell_escape_spec(
                venv_py,
            ),
        )
    } else if crate::strutil::has_char_prefix(t, "pip install"@) {
        Some(shell_escape_spec(venv_py) + " -m pip "@ + t.skip(4))
    } else if crate::strutil::has_char_prefix(t, "pip3 install"@) {
        Some(shell_escape_spec(venv_py) + " -m pip "@ + t.skip(5))
    } else {
        None
    }
}

/// Rewrite `pip`/`uv pip` installs to target the isolated environment's
/// interpreter explicitly.
pub fn rewrite_pip_cmd(command: &str, uv: &str, venv_py: &str) -> (r: Option<String>)
    ensures
        match r {
            Some(out) => pip_rewrite(command@, uv@, venv_py@) is Some && out@ == pip_rewrite(
                command@,
                uv@,
                venv_py@,
            )->Some_0,
            None => pip_rewrite(command@, uv@, venv_py@) is None,
        },
{
    let chars = crate::strutil::str_chars(command);
    let t = crate::web::trim_chars_exec(chars.as_slice());
    let uvpip: &[char] = &['u', 'v', ' ', 'p', 'i', 'p', ' '];
    let pipi: &[char] = &['p', 'i', 'p', ' ', 'i', 'n', 's', 't', 'a', 'l', 'l'];
    let pip3i: &[char] = &['p', 'i', 'p', '3', ' ', 'i', 'n', 's', 't', 'a', 'l', 'l'];
    proof {
        reveal_strlit("uv pip ");
        reveal_strlit("pip install");
        reveal_strlit("pip3 install");
        assert(uvpip@ =~= "uv pip "@);
        assert(pipi@ =~= "pip install"@);
        assert(pip3i@ =~= "pip3 install"@);
    }
    if crate::strutil::starts_with_chars(t, uvpip) {
        let rest = vstd::slice::slice_subrange(t, 7, t.len());
        proof {
            assert(rest@ =~= t@.skip(7));
        }
        let mut out = shell_escape(uv);
        out.append(" pip ");
        let rest_s = copy_chars(rest);
        out.append(rest_s.as_str());
        out.append(" --python ");
        let e_py = shell_escape(venv_py);
        out.append(e_py.as_str());
        return Some(out);
    }
    if crate::strutil::starts_with_chars(t, pipi) {
        let rest = vstd::slice::slice_subrange(t, 4, t.len());
        proof {
            assert(rest@ =~= t@.skip(4));
        }
        let mut out = shell_escape(venv_py);
        out.append(" -m pip ");
        let rest_s = copy_chars(rest);
        out.append(rest_s.as_str());
        return Some(out);
    }
    if crate::strutil::starts_with_chars(t, pip3i) {
        let rest = vstd::slice::slice_subrange(t, 5, t.len());
        proof {
            assert(rest@ =~= t@.skip(5));
        }
        let mut out = shell_escape(venv_py);
        out.append(" -m pip ");
        let rest_s = copy_chars(rest);
        out.append(rest_s.as_str());
        return Some(out);
    }
    None
}

/// Copy a char slice into a string.
fn copy_chars(s: &[char]) -> (r: String)
    ensures
        r@ == s@,
{
    let mut v: Vec<char> = Vec::new();
    let mut i: usize = 0;
    while i < s.len()
        invariant
            i <= s@.len(),
            v@ == s@.subrange(0, i as int),
        decreases s@.len() - i,
    {
        v.push(s[i]);
        proof {
            assert(v@ =~= s@.subrange(0, i + 1));
        }
        i += 1;
    }
    proof {
        assert(v@ =~= s@);
    }
    crate::strutil::chars_to_string(&v)
}

/// The command a validated input actually runs: interpreter, script and
/// package-install invocations routed through the isolated environment, in
/// that order of rewriting; everything else unchanged.
pub open spec fn rewritten_command(
    cmd: Seq<char>,
    real_root: Seq<char>,
    python: Seq<char>,
    guard: Seq<char>,
    uv: Seq<char>,
    venv_py: Seq<char>,
) -> Seq<char> {
    let c1 = match python_rest(cmd) {
        Some(rest) => shell_escape_spec(python) + " "@ + shell_escape_spec(guard) + " "@
            + shell_escape_spec(real_root) + rest,
        None => cmd,
    };
    let c2 = match script_parts(c1) {
        Some(parts) => {
            let head = shell_escape_spec(python) + " "@ + shell_escape_spec(guard) + " "@
                + shell_escape_spec(real_root) + " "@ + shell_escape_spec(parts.0);
            if parts.1.len() > 0 {
                head + " "@ + parts.1
            } else {
                head
            }
        },
        None => c1,
    };
    match pip_rewrite(c2, uv, venv_py) {
        Some(out) => out,
        None => c2,
    }
}

/// Validate and rewrite a command for execution. A rejected command comes
/// back as the rejection message and is never rewritten; an accepted one
/// comes back in its executable form.
pub fn prepare_command(
    command: &str,
    real_root: &str,
    python: &str,
    guard: &str,
    uv: &str,
    venv_py: &str,
) -> (r: Result<String, String>)
    ensures
        match r {
            Ok(out) => validation_error(cmd_trim(command.spec_bytes())) is None && out@
                == rewritten_command(command@, real_root@, python@, guard@, uv@, venv_py@),
            Err(msg) => validation_error(cmd_trim(command.spec_bytes())) == Some(msg@),
        },
{
    match validate_command(command) {
        Some(msg) => Err(msg),
        None => {
            let mut cmd: String = command.to_owned();
            match rewrite_python_cmd(cmd.as_str(), real_root, python, guard) {
                Some(x) => {
                    cmd = x;
                },
                None => {},
            }
            match rewrite_script_cmd(cmd.as_str(), real_root, python, guard) {
                Some(x) => {
                    cmd = x;
                },
                None => {},
            }
            match rewrite_pip_cmd(cmd.as_str(), uv, venv_py) {
                Some(x) => {
                    cmd = x;
                },
                None => {},
            }
            Ok(cmd)
        },
    }
}

/// How a finished process's output reads back to the model: both streams
/// joined, a placeholder for silence, long output truncated with a marker.
pub open spec fn format_output_spec(out: Seq<char>, err: Seq<char>) -> Seq<char> {
    let joined = out + err;
    if crate::web::trim_chars(joined).len() == 0 {
        "(no output)"@
    } else if joined.len() > 3000 {
        joined.subrange(0, 3000) + "\n...(truncated)"@
    } else {
        joined
    }
}

/// Join a process's stdout and stderr into the tool-result string.
pub fn format_output(out: &str, err: &str) -> (r: String)
    ensures
        r@ == format_output_spec(out@, err@),
{
    let a = crate::strutil::str_chars(out);
    let b = crate::strutil::str_chars(err);
    let mut joined: Vec<char> = Vec::new();
    let mut i: usize = 0;
    while i < a.len()
        invariant
            i <= a@.len(),
            joined@ == a@.subrange(0, i as int),
        decreases a@.len() - i,
    {
        joined.push(a[i]);
        proof {
            assert(joined@ =~= a@.subrange(0, i + 1));
        }
        i += 1;
    }
    proof {
        assert(joined@ =~= a@);
    }
    let mut j: usize = 0;
    while j < b.len()
        invariant
            j <= b@.len(),
            joined@ == a@ + b@.subrange(0, j as int),
        decreases b@.len() - j,
    {
        joined.push(b[j]);
        proof {
            assert(joined@ =~= a@ + b@.subrange(0, j + 1));
        }
        j += 1;
    }
    proof {
        assert(joined@ =~= a@ + b@);
    }
    let trimmed = crate::web::trim_chars_exec(joined.as_slice());
    if trimmed.len() == 0 {
        return String::from_str("(no output)");
    }
    if joined.len() > 3000 {
        let mut head: Vec<char> = Vec::new();
        let mut k: usize = 0;
        while k < 3000
            invariant
                k <= 3000,
                joined@.len() > 3000,
                head@ == joined@.subrange(0, k as int),
            decreases 3000 - k,
        {
            head.push(joined[k]);
            proof {
                assert(head@ =~= joined@.subrange(0, k + 1));
            }
            k += 1;
        }
        let mut r = crate::strutil::chars_to_string(&head);
        r.append("\n...(truncated)");
        return r;
    }
    crate::strutil::chars_to_string(&joined)
}


// ---------------------------------------------------------------------------
// Confined-root file classification
// ---------------------------------------------------------------------------

/// File extensions read as text when a new file appears.
pub fn is_text_ext(ext: &str) -> (r: bool)
    ensures
        r == (ext@ == ".txt"@ || ext@ == ".md"@ || ext@ == ".py"@ || ext@ == ".json"@ || ext@
            == ".csv"@ || ext@ == ".yaml"@ || ext@ == ".yml"@ || ext@ == ".toml"@ || ext@
            == ".js"@ || ext@ == ".ts"@ || ext@ == ".html"@ || ext@ == ".css"@ || ext@ == ".sh"@
            || ext@ == ".log"@),
{
    crate::strutil::str_eq(ext, ".txt") || crate::strutil::str_eq(ext, ".md")
        || crate::strutil::str_eq(ext, ".py") || crate::strutil::str_eq(ext, ".json")
        || crate::strutil::str_eq(ext, ".csv") || crate::strutil::str_eq(ext, ".yaml")
        || crate::strutil::str_eq(ext, ".yml") || crate::strutil::str_eq(ext, ".toml")
        || crate::strutil::str_eq(ext, ".js") || crate::strutil::str_eq(ext, ".ts")
        || crate::strutil::str_eq(ext, ".html") || crate::strutil::str_eq(ext, ".css")
        || crate::strutil::str_eq(ext, ".sh") || crate::strutil::str_eq(ext, ".log")
}

/// File extensions attached as images when a new file appears.
pub fn is_image_ext(ext: &str) -> (r: bool)
    ensures
        r == (ext@ == ".png"@ || ext@ == ".jpg"@ || ext@ == ".jpeg"@ || ext@ == ".gif"@ || ext@
            == ".webp"@),
{
    crate::strutil::str_eq(ext, ".png") || crate::strutil::str_eq(ext, ".jpg")
        || crate::strutil::str_eq(ext, ".jpeg") || crate::strutil::str_eq(ext, ".gif")
        || crate::strutil::str_eq(ext, ".webp")
}

/// Files the agent or the system manages itself: they never trigger inbox
/// alerts.
pub fn is_ignored_file(name: &str) -> (r: bool)
    ensures
        r == (name@ == "memory_stream.jsonl"@ || name@ == "identity.json"@),
{
    crate::strutil::str_eq(name, "memory_stream.jsonl") || crate::strutil::str_eq(
        name,
        "identity.json",
    )
}

/// Root files the system manages: present from the start, never alerts.
pub fn is_internal_root_file(name: &str) -> (r: bool)
    ensures
        r == (name@ == "projects.md"@),
{
    crate::strutil::str_eq(name, "projects.md")
}

/// The MIME type an image extension maps to.
pub fn image_mime(ext: &str) -> (r: &'static str)
    ensures
        r@ == (if ext@ == ".png"@ {
            "image/png"@
        } else if ext@ == ".jpg"@ || ext@ == ".jpeg"@ {
            "image/jpeg"@
        } else if ext@ == ".gif"@ {
            "image/gif"@
        } else if ext@ == ".webp"@ {
            "image/webp"@
        } else {
            "application/octet-stream"@
        }),
{
    if crate::strutil::str_eq(ext, ".png") {
        "image/png"
    } else if crate::strutil::str_eq(ext, ".jpg") || crate::strutil::str_eq(ext, ".jpeg") {
        "image/jpeg"
    } else if crate::strutil::str_eq(ext, ".gif") {
        "image/gif"
    } else if crate::strutil::str_eq(ext, ".webp") {
        "image/webp"
    } else {
        "application/octet-stream"
    }
}

/// What base64 makes of a byte string.
pub uninterp spec fn base64_of(b: Seq<u8>) -> Seq<char>;

/// Relies on the base64 crate's standard engine: the encoding is a
/// function of the bytes alone.
#[verifier::external_body]
fn base64_encode(b: &[u8]) -> (r: String)
    ensures
        r@ == base64_of(b@),
{
    base64::engine::general_purpose::STANDARD.encode(b)
}

/// Render an image file as the data URL an inbox alert attaches.
pub fn image_data_url(mime: &str, data: &[u8]) -> (r: String)
    ensures
        r@ == "data:"@ + mime@ + ";base64,"@ + base64_of(data@),
{
    let mut out = String::from_str("data:");
    out.append(mime);
    out.append(";base64,");
    let b64 = base64_encode(data);
    out.append(b64.as_str());
    out
}

} // verus!
