//! Web-tool text handling: URL scheme checks and the HTML-to-text
//! conversion used on fetched pages. Script and style blocks are cut out,
//! tags are stripped, whitespace is collapsed.

use vstd::prelude::*;
use vstd::slice::slice_subrange;
use vstd::string::StringExecFns;

use crate::strutil::{chars_to_string, has_char_prefix, starts_with_chars, str_chars};

verus! {

/// ASCII whitespace at the character level.
pub open spec fn is_space_char(c: char) -> bool {
    c == ' ' || c == '\t' || c == '\n' || c == '\r' || c == '\u{b}' || c == '\u{c}'
}

fn is_space_char_exec(c: char) -> (r: bool)
    ensures
        r == is_space_char(c),
{
    c == ' ' || c == '\t' || c == '\n' || c == '\r' || c == '\u{b}' || c == '\u{c}'
}

/// ASCII lower-casing of one character.
pub open spec fn lower_char(c: char) -> char {
    if 'A' <= c && c <= 'Z' {
        ((c as u8) + 32) as char
    } else {
        c
    }
}

fn lower_char_exec(c: char) -> (r: char)
    ensures
        r == lower_char(c),
{
    if 'A' <= c && c <= 'Z' {
        ((c as u8) + 32) as char
    } else {
        c
    }
}

/// A case-insensitive match of `pat` (given lowercase) at position `i`.
pub open spec fn ci_at(s: Seq<char>, pat: Seq<char>, i: int) -> bool {
    &&& 0 <= i
    &&& i + pat.len() <= s.len()
    &&& forall|k: int| 0 <= k < pat.len() ==> lower_char(#[trigger] s[i + k]) == pat[k]
}

/// The first case-insensitive occurrence of `pat` at or after `from`.
pub open spec fn first_ci(s: Seq<char>, pat: Seq<char>, from: int) -> Option<int>
    decreases s.len() - from,
    when 0 <= from
{
    if from + pat.len() > s.len() {
        None
    } else if ci_at(s, pat, from) {
        Some(from)
    } else {
        first_ci(s, pat, from + 1)
    }
}

pub proof fn lemma_first_ci(s: Seq<char>, pat: Seq<char>, from: int)
    requires
        0 <= from,
    ensures
        match first_ci(s, pat, from) {
            Some(i) => from <= i && ci_at(s, pat, i),
            None => true,
        },
    decreases s.len() - from,
{
    if from + pat.len() > s.len() {
    } else if ci_at(s, pat, from) {
    } else {
        lemma_first_ci(s, pat, from + 1);
    }
}

fn find_ci(s: &[char], pat: &[char], from: usize) -> (r: Option<usize>)
    ensures
        match r {
            Some(i) => first_ci(s@, pat@, from as int) == Some(i as int) && from <= i
                && i + pat@.len() <= s@.len(),
            None => first_ci(s@, pat@, from as int) is None,
        },
    decreases s@.len() - from,
{
    if from > s.len() || pat.len() > s.len() - from {
        return None;
    }
    let n = pat.len();
    let slen = s.len();
    let mut k: usize = 0;
    let mut all = true;
    while k < n
        invariant
            n == pat@.len(),
            slen == s@.len(),
            from + n <= slen,
            k <= n,
            all <==> (forall|j: int| 0 <= j < k ==> lower_char(#[trigger] s@[from + j]) == pat@[j]),
        decreases n - k,
    {
        if lower_char_exec(s[from + k]) != pat[k] {
            all = false;
            k = n;
        } else {
            proof {
                assert(lower_char(s@[from + k]) == pat@[k as int]);
            }
            k += 1;
        }
    }
    if all {
        Some(from)
    } else {
        find_ci(s, pat, from + 1)
    }
}

/// Remove every `op ... cl` block (matched case-insensitively, tags given
/// lowercase); a block missing its close is kept.
pub open spec fn strip_blocks(s: Seq<char>, op: Seq<char>, cl: Seq<char>) -> Seq<char>
    decreases s.len(),
    when cl.len() >= 1
{
    match first_ci(s, op, 0) {
        None => s,
        Some(st) => match first_ci(s, cl, st) {
            None => s,
            Some(en) => {
                proof {
                    lemma_first_ci(s, op, 0);
                    lemma_first_ci(s, cl, st);
                }
                strip_blocks(s.subrange(0, st) + s.subrange(en + cl.len(), s.len() as int), op, cl)
            },
        },
    }
}

fn splice(v: &Vec<char>, st: usize, from: usize) -> (r: Vec<char>)
    requires
        st <= from <= v@.len(),
    ensures
        r@ == v@.subrange(0, st as int) + v@.subrange(from as int, v@.len() as int),
{
    let mut out: Vec<char> = Vec::new();
    let mut i: usize = 0;
    while i < st
        invariant
            st <= from <= v@.len(),
            i <= st,
            out@ == v@.subrange(0, i as int),
        decreases st - i,
    {
        out.push(v[i]);
        proof {
            assert(out@ =~= v@.subrange(0, i + 1));
        }
        i += 1;
    }
    let mut j: usize = from;
    while j < v.len()
        invariant
            st <= from <= v@.len(),
            from <= j <= v@.len(),
            out@ == v@.subrange(0, st as int) + v@.subrange(from as int, j as int),
        decreases v@.len() - j,
    {
        out.push(v[j]);
        proof {
            assert(out@ =~= v@.subrange(0, st as int) + v@.subrange(from as int, j + 1));
        }
        j += 1;
    }
    proof {
        assert(out@ =~= v@.subrange(0, st as int) + v@.subrange(from as int, v@.len() as int));
    }
    out
}

fn remove_blocks(v: Vec<char>, op: &[char], cl: &[char]) -> (r: Vec<char>)
    requires
        cl@.len() >= 1,
    ensures
        r@ == strip_blocks(v@, op@, cl@),
    decreases v@.len(),
{
    let vlen = v.len();
    match find_ci(v.as_slice(), op, 0) {
        None => v,
        Some(st) => {
            match find_ci(v.as_slice(), cl, st) {
                None => v,
                Some(en) => {
                    proof {
                        lemma_first_ci(v@, op@, 0);
                        lemma_first_ci(v@, cl@, st as int);
                    }
                    let next = splice(&v, st, en + cl.len());
                    remove_blocks(next, op, cl)
                },
            }
        },
    }
}

/// Drop everything between `<` and `>`; each closed tag leaves one space.
pub open spec fn strip_tags_from(s: Seq<char>, i: int, in_tag: bool) -> Seq<char>
    decreases s.len() - i,
    when 0 <= i
{
    if i >= s.len() {
        Seq::empty()
    } else if s[i] == '<' {
        strip_tags_from(s, i + 1, true)
    } else if s[i] == '>' {
        seq![' '] + strip_tags_from(s, i + 1, false)
    } else if !in_tag {
        seq![s[i]] + strip_tags_from(s, i + 1, in_tag)
    } else {
        strip_tags_from(s, i + 1, in_tag)
    }
}

fn strip_tags(v: &Vec<char>) -> (r: Vec<char>)
    ensures
        r@ == strip_tags_from(v@, 0, false),
{
    let n = v.len();
    let mut out: Vec<char> = Vec::new();
    let mut in_tag = false;
    let mut i: usize = 0;
    proof {
        assert(Seq::<char>::empty() + strip_tags_from(v@, 0, false) =~= strip_tags_from(
            v@,
            0,
            false,
        ));
    }
    while i < n
        invariant
            i <= n,
            n == v@.len(),
            strip_tags_from(v@, 0, false) == out@ + strip_tags_from(v@, i as int, in_tag),
        decreases n - i,
    {
        let c = v[i];
        if c == '<' {
            in_tag = true;
        } else if c == '>' {
            proof {
                assert(out@ + (seq![' '] + strip_tags_from(v@, i + 1, false)) =~= out@.push(' ')
                    + strip_tags_from(v@, i + 1, false));
            }
            out.push(' ');
            in_tag = false;
        } else if !in_tag {
            proof {
                assert(out@ + (seq![c] + strip_tags_from(v@, i + 1, in_tag)) =~= out@.push(c)
                    + strip_tags_from(v@, i + 1, in_tag));
            }
            out.push(c);
        }
        i += 1;
    }
    proof {
        assert(strip_tags_from(v@, n as int, in_tag) =~= Seq::<char>::empty());
        assert(out@ + Seq::<char>::empty() =~= out@);
    }
    out
}

/// Collapse every whitespace run into one space.
pub open spec fn collapse_from(s: Seq<char>, i: int, last_space: bool) -> Seq<char>
    decreases s.len() - i,
    when 0 <= i
{
    if i >= s.len() {
        Seq::empty()
    } else if is_space_char(s[i]) {
        if last_space {
            collapse_from(s, i + 1, true)
        } else {
            seq![' '] + collapse_from(s, i + 1, true)
        }
    } else {
        seq![s[i]] + collapse_from(s, i + 1, false)
    }
}

fn collapse_ws(v: &Vec<char>) -> (r: Vec<char>)
    ensures
        r@ == collapse_from(v@, 0, false),
{
    let n = v.len();
    let mut out: Vec<char> = Vec::new();
    let mut last_space = false;
    let mut i: usize = 0;
    proof {
        assert(Seq::<char>::empty() + collapse_from(v@, 0, false) =~= collapse_from(v@, 0, false));
    }
    while i < n
        invariant
            i <= n,
            n == v@.len(),
            collapse_from(v@, 0, false) == out@ + collapse_from(v@, i as int, last_space),
        decreases n - i,
    {
        let c = v[i];
        if is_space_char_exec(c) {
            if !last_space {
                proof {
                    assert(out@ + (seq![' '] + collapse_from(v@, i + 1, true)) =~= out@.push(' ')
                        + collapse_from(v@, i + 1, true));
                }
                out.push(' ');
                last_space = true;
            }
        } else {
            proof {
                assert(out@ + (seq![c] + collapse_from(v@, i + 1, false)) =~= out@.push(c)
                    + collapse_from(v@, i + 1, false));
            }
            out.push(c);
            last_space = false;
        }
        i += 1;
    }
    proof {
        assert(collapse_from(v@, n as int, last_space) =~= Seq::<char>::empty());
        assert(out@ + Seq::<char>::empty() =~= out@);
    }
    out
}

/// Drop leading ASCII whitespace characters.
pub open spec fn trim_start_chars(s: Seq<char>) -> Seq<char>
    decreases s.len(),
{
    if s.len() > 0 && is_space_char(s[0]) {
        trim_start_chars(s.drop_first())
    } else {
        s
    }
}

/// Drop trailing ASCII whitespace characters.
pub open spec fn trim_end_chars(s: Seq<char>) -> Seq<char>
    decreases s.len(),
{
    if s.len() > 0 && is_space_char(s[s.len() - 1]) {
        trim_end_chars(s.drop_last())
    } else {
        s
    }
}

/// Both-ends ASCII whitespace trim on characters.
pub open spec fn trim_chars(s: Seq<char>) -> Seq<char> {
    trim_end_chars(trim_start_chars(s))
}

fn trim_start_chars_exec<'a>(s: &'a [char]) -> (r: &'a [char])
    ensures
        r@ == trim_start_chars(s@),
    decreases s@.len(),
{
    if s.len() > 0 && is_space_char_exec(s[0]) {
        let rest = slice_subrange(s, 1, s.len());
        proof {
            assert(rest@ =~= s@.drop_first());
        }
        trim_start_chars_exec(rest)
    } else {
        s
    }
}

fn trim_end_chars_exec<'a>(s: &'a [char]) -> (r: &'a [char])
    ensures
        r@ == trim_end_chars(s@),
    decreases s@.len(),
{
    if s.len() > 0 && is_space_char_exec(s[s.len() - 1]) {
        let rest = slice_subrange(s, 0, s.len() - 1);
        proof {
            assert(rest@ =~= s@.drop_last());
        }
        trim_end_chars_exec(rest)
    } else {
        s
    }
}

pub(crate) fn trim_chars_exec<'a>(s: &'a [char]) -> (r: &'a [char])
    ensures
        r@ == trim_chars(s@),
{
    trim_end_chars_exec(trim_start_chars_exec(s))
}

/// The text a fetched HTML page reads as: script and style blocks removed,
/// tags stripped (each leaving a space), whitespace collapsed, ends
/// trimmed.
pub open spec fn strip_html_spec(s: Seq<char>) -> Seq<char> {
    let no_script = strip_blocks(s, "<script"@, "</script>"@);
    let no_style = strip_blocks(no_script, "<style"@, "</style>"@);
    trim_chars(collapse_from(strip_tags_from(no_style, 0, false), 0, false))
}

/// Strip HTML down to its text.
pub fn strip_html(html: &str) -> (r: String)
    ensures
        r@ == strip_html_spec(html@),
{
    let chars = str_chars(html);
    let op_script: &[char] = &['<', 's', 'c', 'r', 'i', 'p', 't'];
    let cl_script: &[char] = &['<', '/', 's', 'c', 'r', 'i', 'p', 't', '>'];
    let op_style: &[char] = &['<', 's', 't', 'y', 'l', 'e'];
    let cl_style: &[char] = &['<', '/', 's', 't', 'y', 'l', 'e', '>'];
    proof {
        reveal_strlit("<script");
        reveal_strlit("</script>");
        reveal_strlit("<style");
        reveal_strlit("</style>");
        assert(op_script@ =~= "<script"@);
        assert(cl_script@ =~= "</script>"@);
        assert(op_style@ =~= "<style"@);
        assert(cl_style@ =~= "</style>"@);
    }
    let no_script = remove_blocks(chars, op_script, cl_script);
    let no_style = remove_blocks(no_script, op_style, cl_style);
    let tagless = strip_tags(&no_style);
    let collapsed = collapse_ws(&tagless);
    let trimmed = trim_chars_exec(collapsed.as_slice());
    let mut out_vec: Vec<char> = Vec::new();
    let mut i: usize = 0;
    while i < trimmed.len()
        invariant
            i <= trimmed@.len(),
            out_vec@ == trimmed@.subrange(0, i as int),
        decreases trimmed@.len() - i,
    {
        out_vec.push(trimmed[i]);
        proof {
            assert(out_vec@ =~= trimmed@.subrange(0, i + 1));
        }
        i += 1;
    }
    proof {
        assert(out_vec@ =~= trimmed@);
    }
    chars_to_string(&out_vec)
}

/// Only plain web URLs may be fetched.
pub open spec fn url_allowed(u: Seq<char>) -> bool {
    has_char_prefix(u, "http://"@) || has_char_prefix(u, "https://"@)
}

/// Check a fetch target: only `http://` and `https://` URLs are allowed.
pub fn is_allowed_url(url: &str) -> (r: bool)
    ensures
        r == url_allowed(url@),
{
    let chars = str_chars(url);
    let p1: &[char] = &['h', 't', 't', 'p', ':', '/', '/'];
    let p2: &[char] = &['h', 't', 't', 'p', 's', ':', '/', '/'];
    proof {
        reveal_strlit("http://");
        reveal_strlit("https://");
        assert(p1@ =~= "http://"@);
        assert(p2@ =~= "https://"@);
    }
    starts_with_chars(chars.as_slice(), p1) || starts_with_chars(chars.as_slice(), p2)
}


/// The first `k` characters, with the truncation marker when cut.
pub open spec fn clip_marked(s: Seq<char>, k: int) -> Seq<char> {
    if s.len() > k {
        s.subrange(0, k) + "...(truncated)"@
    } else {
        s
    }
}

fn copy_chars_to_string(v: &[char]) -> (r: String)
    ensures
        r@ == v@,
{
    let mut out: Vec<char> = Vec::new();
    let mut i: usize = 0;
    while i < v.len()
        invariant
            i <= v@.len(),
            out@ == v@.subrange(0, i as int),
        decreases v@.len() - i,
    {
        out.push(v[i]);
        proof {
            assert(out@ =~= v@.subrange(0, i + 1));
        }
        i += 1;
    }
    proof {
        assert(out@ =~= v@);
    }
    chars_to_string(&out)
}

fn clip_string(s: &str, k: usize) -> (r: String)
    ensures
        r@ == clip_marked(s@, k as int),
{
    let chars = str_chars(s);
    if chars.len() > k {
        let head = vstd::slice::slice_subrange(chars.as_slice(), 0, k);
        let mut out = copy_chars_to_string(head);
        out.append("...(truncated)");
        out
    } else {
        s.to_owned()
    }
}

/// What a fetched page reads back as: its stripped text, the raw body when
/// stripping leaves nothing, truncated with a marker past the cap.
pub open spec fn fetch_result_spec(body: Seq<char>) -> Seq<char> {
    let text = strip_html_spec(body);
    let base = if text.len() == 0 {
        body
    } else {
        text
    };
    clip_marked(base, 12000)
}

/// Format a fetched page for the model.
pub fn format_fetch_result(body: &str) -> (r: String)
    ensures
        r@ == fetch_result_spec(body@),
{
    let text = strip_html(body);
    if text.as_str().is_empty() {
        clip_string(body, 12000)
    } else {
        clip_string(text.as_str(), 12000)
    }
}

/// One cloud search result.
pub struct SearchResult {
    pub title: String,
    pub url: String,
    pub content: String,
}

/// One result's block in the flattened search text: title, URL, content
/// capped at two thousand characters.
pub open spec fn search_block(title: Seq<char>, url: Seq<char>, content: Seq<char>) -> Seq<char> {
    "**"@ + title + "**\n"@ + "URL: "@ + url + "\n"@ + (if content.len() > 2000 {
        content.subrange(0, 2000)
    } else {
        content
    }) + "\n"@
}

/// The flattened result blocks, blank-line separated.
pub open spec fn search_blocks(rs: Seq<SearchResult>, i: int) -> Seq<char>
    decreases rs.len() - i,
    when 0 <= i
{
    if i >= rs.len() {
        Seq::empty()
    } else {
        let one = search_block(rs[i].title@, rs[i].url@, rs[i].content@);
        if i + 1 < rs.len() {
            one + "\n"@ + search_blocks(rs, i + 1)
        } else {
            one
        }
    }
}

/// What a search reply reads back as: the blocks capped at eight thousand
/// characters, or the no-results sentinel when nothing is left.
pub open spec fn search_text_spec(rs: Seq<SearchResult>) -> Seq<char> {
    let full = search_blocks(rs, 0);
    let capped = if full.len() > 8000 {
        full.subrange(0, 8000)
    } else {
        full
    };
    if trim_chars(capped).len() == 0 {
        "No results found."@
    } else {
        capped
    }
}

/// Flatten cloud search results into the tool-result text.
pub fn format_search_results(results: &Vec<SearchResult>) -> (r: String)
    ensures
        r@ == search_text_spec(results@),
{
    let n = results.len();
    let mut out: Vec<char> = Vec::new();
    let mut i: usize = 0;
    proof {
        assert(Seq::<char>::empty() + search_blocks(results@, 0) =~= search_blocks(results@, 0));
    }
    while i < n
        invariant
            i <= n,
            n == results@.len(),
            search_blocks(results@, 0) == out@ + search_blocks(results@, i as int),
        decreases n - i,
    {
        let ghost pre = out@;
        push_str_chars(&mut out, "**");
        push_str_chars(&mut out, results[i].title.as_str());
        push_str_chars(&mut out, "**\n");
        push_str_chars(&mut out, "URL: ");
        push_str_chars(&mut out, results[i].url.as_str());
        push_str_chars(&mut out, "\n");
        let content = results[i].content.as_str();
        let cchars = str_chars(content);
        if cchars.len() > 2000 {
            let head = vstd::slice::slice_subrange(cchars.as_slice(), 0, 2000);
            push_char_slice(&mut out, head);
        } else {
            push_char_slice(&mut out, cchars.as_slice());
        }
        push_str_chars(&mut out, "\n");
        if i + 1 < n {
            push_str_chars(&mut out, "\n");
            proof {
                assert(out@ =~= pre + (search_block(
                    results@[i as int].title@,
                    results@[i as int].url@,
                    results@[i as int].content@,
                ) + "\n"@));
                assert(pre + (search_block(
                    results@[i as int].title@,
                    results@[i as int].url@,
                    results@[i as int].content@,
                ) + "\n"@) =~= pre + search_block(
                    results@[i as int].title@,
                    results@[i as int].url@,
                    results@[i as int].content@,
                ) + "\n"@);
            }
        } else {
            proof {
                assert(out@ =~= pre + search_block(
                    results@[i as int].title@,
                    results@[i as int].url@,
                    results@[i as int].content@,
                ));
            }
        }
        i += 1;
    }
    proof {
        assert(search_blocks(results@, n as int) =~= Seq::<char>::empty());
        assert(out@ + Seq::<char>::empty() =~= out@);
    }
    let capped: Vec<char> = if out.len() > 8000 {
        let head = vstd::slice::slice_subrange(out.as_slice(), 0, 8000);
        let mut v: Vec<char> = Vec::new();
        let mut k: usize = 0;
        while k < head.len()
            invariant
                k <= head@.len(),
                v@ == head@.subrange(0, k as int),
            decreases head@.len() - k,
        {
            v.push(head[k]);
            proof {
                assert(v@ =~= head@.subrange(0, k + 1));
            }
            k += 1;
        }
        proof {
            assert(v@ =~= head@);
        }
        v
    } else {
        out
    };
    let trimmed = trim_chars_exec(capped.as_slice());
    if trimmed.len() == 0 {
        return String::from_str("No results found.");
    }
    chars_to_string(&capped)
}

/// What a cloud page fetch reads back as: the content capped at six
/// thousand characters, under its title when there is one.
pub open spec fn web_fetch_spec(title: Seq<char>, content: Seq<char>) -> Seq<char> {
    let clipped = if content.len() > 6000 {
        content.subrange(0, 6000)
    } else {
        content
    };
    if title.len() == 0 {
        clipped
    } else {
        "**"@ + title + "**\n\n"@ + clipped
    }
}

/// Format a cloud page fetch for the model.
pub fn format_web_fetch(title: &str, content: &str) -> (r: String)
    ensures
        r@ == web_fetch_spec(title@, content@),
{
    let cchars = str_chars(content);
    let clipped: String = if cchars.len() > 6000 {
        let head = vstd::slice::slice_subrange(cchars.as_slice(), 0, 6000);
        copy_chars_to_string(head)
    } else {
        content.to_owned()
    };
    if title.is_empty() {
        clipped
    } else {
        let mut out = String::from_str("**");
        out.append(title);
        out.append("**\n\n");
        out.append(clipped.as_str());
        out
    }
}

fn push_str_chars(out: &mut Vec<char>, s: &str)
    ensures
        final(out)@ == old(out)@ + s@,
{
    let chars = str_chars(s);
    let mut i: usize = 0;
    while i < chars.len()
        invariant
            i <= chars@.len(),
            chars@ == s@,
            out@ == old(out)@ + s@.subrange(0, i as int),
        decreases chars@.len() - i,
    {
        out.push(chars[i]);
        proof {
            assert(out@ =~= old(out)@ + s@.subrange(0, i + 1));
        }
        i += 1;
    }
    proof {
        assert(s@.subrange(0, s@.len() as int) =~= s@);
    }
}

fn push_char_slice(out: &mut Vec<char>, s: &[char])
    ensures
        final(out)@ == old(out)@ + s@,
{
    let mut i: usize = 0;
    while i < s.len()
        invariant
            i <= s@.len(),
            out@ == old(out)@ + s@.subrange(0, i as int),
        decreases s@.len() - i,
    {
        out.push(s[i]);
        proof {
            assert(out@ =~= old(out)@ + s@.subrange(0, i + 1));
        }
        i += 1;
    }
    proof {
        assert(s@.subrange(0, s@.len() as int) =~= s@);
    }
}

} // verus!
