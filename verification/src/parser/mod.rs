pub mod markdown;
pub mod toml;
pub mod xml_events;

use vstd::prelude::*;
use crate::json::{Json, JsonV, json_parse, parse_json};
use crate::text::{all_ascii, ascii_lower, contains, lower_text, starts_with, str_eq};
use self::markdown::{concat, markdown_template_spec, parse_markdown_template};
use self::toml::{parse_toml_template, toml_template_spec};

verus! {

/// The formats a template can be written in.
#[derive(Debug, Clone, Copy, PartialEq, Eq, Structural)]
pub enum TemplateFormat {
    Json,
    Markdown,
    Toml,
}

/// The format that a file extension stands for, compared without regard to
/// case: "json", "md" or "markdown", "toml"; any other extension is read as
/// JSON.
pub open spec fn format_of_extension(ext: Seq<char>) -> TemplateFormat {
    let e = lower_text(ext);
    if e == "md"@ || e == "markdown"@ {
        TemplateFormat::Markdown
    } else if e == "toml"@ {
        TemplateFormat::Toml
    } else {
        TemplateFormat::Json
    }
}

/// A path that every platform reads as one plain file name: no separator
/// ('/' or '\\'), no ':' (which could open a drive prefix), and not "..".
pub open spec fn single_name(p: Seq<char>) -> bool {
    !p.contains('/') && !p.contains('\\') && !p.contains(':') && p != ".."@
}

/// The position of the last '.' in `s`, if any.
pub open spec fn last_dot(s: Seq<char>) -> Option<int>
    decreases s.len(),
{
    if s.len() == 0 {
        None
    } else if s.last() == '.' {
        Some(s.len() - 1)
    } else {
        last_dot(s.drop_last())
    }
}

/// The position of the last `c` in `s`, if any.
pub open spec fn last_of(s: Seq<char>, c: char) -> Option<int>
    decreases s.len(),
{
    if s.len() == 0 {
        None
    } else if s.last() == c {
        Some(s.len() - 1)
    } else {
        last_of(s.drop_last(), c)
    }
}

/// The last '/'-separated part of a path.
pub open spec fn last_segment(p: Seq<char>) -> Seq<char> {
    match last_of(p, '/') {
        Some(i) => p.subrange(i + 1, p.len() as int),
        None => p,
    }
}

/// A path whose file name every platform reads as its last '/'-separated
/// part: '/' separates parts everywhere, and the path holds no '\\' (the
/// other separator of some platforms), no ':' (which can open a drive
/// prefix), does not begin with "//" (which can open a network prefix), and
/// its last part is a name: not empty (a trailing '/'), ".", or "..".
pub open spec fn plain_last_segment(p: Seq<char>) -> bool {
    &&& !p.contains('\\')
    &&& !p.contains(':')
    &&& !starts_with(p, "//"@)
    &&& last_segment(p).len() > 0
    &&& last_segment(p) != "."@
    &&& last_segment(p) != ".."@
}

/// The extension of a file name as `Path::extension` documents it: none
/// without a '.', none when the only '.' begins the name, and otherwise the
/// part after the last '.'.
pub open spec fn name_extension(f: Seq<char>) -> Option<Seq<char>> {
    match last_dot(f) {
        None => None,
        Some(i) => if i == 0 {
            None
        } else {
            Some(f.subrange(i + 1, f.len() as int))
        },
    }
}

/// The extension of a path as std's `Path::extension` finds it: the part of the
/// file name after its last '.'. The contract states what the documentation
/// promises on every platform: the extension holds no '.', the path holds it
/// behind a '.', a path without any '.' has none, a path that is one plain
/// file name has exactly the extension that `name_extension` gives, and so
/// does a path whose file name is its last '/'-separated part (see
/// `plain_last_segment`). For other paths (with '\\', ':', a leading "//" or
/// a last part that is no name), which part std takes for the file name
/// depends on the platform's path syntax and is left unsaid.
#[verifier::external_body]
fn path_extension(path: &str) -> (r: Option<String>)
    ensures
        r matches Some(e) ==> !e@.contains('.') && contains(path@, seq!['.'] + e@),
        !path@.contains('.') ==> r is None,
        single_name(path@) ==> match r {
            Some(e) => name_extension(path@) == Some(e@),
            None => name_extension(path@) is None,
        },
        plain_last_segment(path@) ==> match r {
            Some(e) => name_extension(last_segment(path@)) == Some(e@),
            None => name_extension(last_segment(path@)) is None,
        },
{
    std::path::Path::new(path).extension().and_then(|e| e.to_str()).map(|e| e.to_string())
}

impl TemplateFormat {
    /// The format for a file extension, if there is one: "json", "md",
    /// "markdown" and "toml" (in any case) name their formats, and every
    /// other extension is read as JSON.
    pub fn from_extension(ext: Option<&str>) -> (r: Option<TemplateFormat>)
        ensures
            match ext {
                Some(e) => r == Some(format_of_extension(e@)),
                None => r is None,
            },
    {
        match ext {
            None => None,
            Some(e) => {
                let low = e.to_lowercase();
                let l = low.as_str();
                proof {
                    reveal_strlit("md");
                    reveal_strlit("markdown");
                    reveal_strlit("toml");
                }
                if str_eq(l, "md") || str_eq(l, "markdown") {
                    Some(TemplateFormat::Markdown)
                } else if str_eq(l, "toml") {
                    Some(TemplateFormat::Toml)
                } else {
                    Some(TemplateFormat::Json)
                }
            },
        }
    }

    /// Detects the format from the extension of a file path; a path without
    /// an extension has no format. For a path that is one plain file name, or
    /// whose file name is its last '/'-separated part (see
    /// `plain_last_segment`), the result is exact: the format of its
    /// extension, or none without one.
    pub fn from_path(path: &str) -> (r: Option<TemplateFormat>)
        ensures
            !path@.contains('.') ==> r is None,
            single_name(path@) ==> r == match name_extension(path@) {
                Some(e) => Some(format_of_extension(e)),
                None => None::<TemplateFormat>,
            },
            plain_last_segment(path@) ==> r == match name_extension(last_segment(path@)) {
                Some(e) => Some(format_of_extension(e)),
                None => None::<TemplateFormat>,
            },
            r matches Some(f) ==> exists|e: Seq<char>|
                !e.contains('.') && contains(path@, seq!['.'] + e) && f == format_of_extension(e),
    {
        let ext = path_extension(path);
        match ext {
            Some(e) => {
                let r = TemplateFormat::from_extension(Some(e.as_str()));
                assert(r == Some(format_of_extension(e@)));
                r
            },
            None => None,
        }
    }
}

/// The template value of a text in a given format, or the error.
pub open spec fn template_str_spec(data: Seq<char>, format: TemplateFormat) -> Result<JsonV, Seq<char>> {
    match format {
        TemplateFormat::Json => match json_parse(data) {
            Ok(v) => Ok(v),
            Err(e) => Err("Invalid JSON: "@ + e),
        },
        TemplateFormat::Markdown => markdown_template_spec(data),
        TemplateFormat::Toml => toml_template_spec(data),
    }
}

/// Parses a template text in the given format into the template value.
pub fn parse_template_str(data: &str, format: TemplateFormat) -> (r: Result<Json, String>)
    ensures
        match r {
            Ok(j) => template_str_spec(data@, format) == Ok::<JsonV, Seq<char>>(j@),
            Err(e) => template_str_spec(data@, format) == Err::<JsonV, Seq<char>>(e@),
        },
{
    match format {
        TemplateFormat::Json => match parse_json(data) {
            Ok(v) => Ok(v),
            Err(e) => Err(concat("Invalid JSON: ", e.as_str())),
        },
        TemplateFormat::Markdown => parse_markdown_template(data),
        TemplateFormat::Toml => parse_toml_template(data),
    }
}

/// `r` is the value or the error that `s` describes.
pub open spec fn json_result_is(r: Result<Json, String>, s: Result<JsonV, Seq<char>>) -> bool {
    match r {
        Ok(j) => s == Ok::<JsonV, Seq<char>>(j@),
        Err(e) => s == Err::<JsonV, Seq<char>>(e@),
    }
}

/// Parses the text of a template file: in the given format, or else in the
/// format that the path's extension names; a path without an extension is an
/// error.
pub fn parse_template_text(path: &str, data: &str, format: Option<TemplateFormat>) -> (r: Result<
    Json,
    String,
>)
    ensures
        format matches Some(f) ==> json_result_is(r, template_str_spec(data@, f)),
        format is None && !path@.contains('.') ==> r is Err && r->Err_0@
            == "Cannot detect format from path: "@ + path@,
        format is None ==> (exists|f: TemplateFormat| json_result_is(r, template_str_spec(data@, f)))
            || (r is Err && r->Err_0@ == "Cannot detect format from path: "@ + path@),
{
    let fmt = match format {
        Some(f) => f,
        None => match TemplateFormat::from_path(path) {
            Some(f) => f,
            None => {
                return Err(concat("Cannot detect format from path: ", path));
            },
        },
    };
    parse_template_str(data, fmt)
}

/// The law of extensions: for an ASCII extension, compared in lower case,
/// `md` and `markdown` name Markdown, `toml` names TOML, and every other
/// extension is read as JSON.
pub proof fn lemma_format_of_extension(e: Seq<char>)
    requires
        all_ascii(e),
    ensures
        ({
            let l = e.map_values(|c: char| ascii_lower(c));
            &&& (format_of_extension(e) == TemplateFormat::Markdown <==> (l == "md"@ || l == "markdown"@))
            &&& (format_of_extension(e) == TemplateFormat::Toml <==> l == "toml"@)
            &&& (format_of_extension(e) == TemplateFormat::Json <==> !(l == "md"@ || l == "markdown"@ || l
                == "toml"@))
        }),
{
    reveal_strlit("md");
    reveal_strlit("markdown");
    reveal_strlit("toml");
    assert("md"@ != "toml"@ && "markdown"@ != "toml"@) by {
        assert("md"@[0] != "toml"@[0]);
        assert("markdown"@[0] != "toml"@[0]);
    }
}

proof fn lemma_last_of_split(d: Seq<char>, f: Seq<char>, c: char)
    requires
        !f.contains(c),
    ensures
        last_of(d + f, c) == (match last_of(d, c) {
            Some(i) => Some(i),
            None => None::<int>,
        }),
    decreases f.len(),
{
    if f.len() > 0 {
        assert((d + f).drop_last() =~= d + f.drop_last());
        assert((d + f).last() == f.last());
        assert(!f.drop_last().contains(c)) by {
            if f.drop_last().contains(c) {
                let i = choose|i: int| 0 <= i < f.drop_last().len() && f.drop_last()[i] == c;
                assert(f[i] == c);
            }
        }
        assert(f.last() != c) by {
            assert(f[f.len() - 1] == f.last());
        }
        lemma_last_of_split(d, f.drop_last(), c);
    } else {
        assert(d + f =~= d);
    }
}

proof fn lemma_last_of_at(s: Seq<char>, c: char)
    ensures
        last_of(s, c) matches Some(i) ==> 0 <= i < s.len() && s[i] == c && forall|j: int| i < j < s.len() ==> s[j] != c,
        last_of(s, c) is None ==> !s.contains(c),
    decreases s.len(),
{
    if s.len() > 0 {
        lemma_last_of_at(s.drop_last(), c);
        if s.last() != c && last_of(s.drop_last(), c) is Some {
            let i = last_of(s.drop_last(), c)->Some_0;
            assert(s[i] == s.drop_last()[i]);
            assert forall|j: int| i < j < s.len() implies s[j] != c by {
                if j < s.len() - 1 {
                    assert(s[j] == s.drop_last()[j]);
                }
            }
        }
        if s.last() != c && last_of(s.drop_last(), c) is None {
            assert(!s.contains(c)) by {
                if s.contains(c) {
                    let i = choose|i: int| 0 <= i < s.len() && s[i] == c;
                    if i < s.len() - 1 {
                        assert(s.drop_last()[i] == c);
                    }
                }
            }
        }
    }
}

/// The law of paths: a file `stem.ext` (a stem that is not empty, neither
/// part holding '.', '/', '\' or ':') in a directory written with '/'
/// (holding no '\' or ':' and not starting with "//") has the format that
/// its extension names, whatever the directory.
pub proof fn lemma_path_format(dir: Seq<char>, stem: Seq<char>, ext: Seq<char>)
    requires
        dir.len() == 0 || dir.last() == '/',
        !dir.contains('\\'),
        !dir.contains(':'),
        !starts_with(dir, "//"@),
        stem.len() > 0,
        !stem.contains('.') && !stem.contains('/') && !stem.contains('\\') && !stem.contains(':'),
        !ext.contains('.') && !ext.contains('/') && !ext.contains('\\') && !ext.contains(':'),
    ensures
        plain_last_segment(dir + stem + seq!['.'] + ext),
        last_segment(dir + stem + seq!['.'] + ext) == stem + seq!['.'] + ext,
        name_extension(last_segment(dir + stem + seq!['.'] + ext)) == Some(ext),
{
    let f = stem + seq!['.'] + ext;
    let p = dir + stem + seq!['.'] + ext;
    assert(p =~= dir + f);
    assert(!f.contains('/')) by {
        if f.contains('/') {
            let i = choose|i: int| 0 <= i < f.len() && f[i] == '/';
            if i < stem.len() {
                assert(stem[i] == '/');
            } else if i > stem.len() {
                assert(ext[i - stem.len() - 1] == '/');
            }
        }
    }
    lemma_last_of_split(dir, f, '/');
    lemma_last_of_at(dir, '/');
    if dir.len() > 0 {
        assert(last_of(dir, '/') == Some(dir.len() - 1));
        assert(p.subrange(dir.len() as int, p.len() as int) =~= f);
    } else {
        assert(p =~= f);
    }
    assert(last_segment(p) == f);
    assert(!ext.contains('.'));
    lemma_last_of_split(stem + seq!['.'], ext, '.');
    assert((stem + seq!['.']).last() == '.');
    assert(last_of(stem + seq!['.'], '.') == Some(stem.len() as int));
    assert(f =~= (stem + seq!['.']) + ext);
    assert(last_of(f, '.') == last_dot(f)) by {
        lemma_last_dot_is_last_of(f);
    }
    assert(f.subrange(stem.len() + 1int, f.len() as int) =~= ext);
    reveal_strlit(".");
    reveal_strlit("..");
    assert(f != "."@ && f != ".."@) by {
        if f == "."@ {
            assert(f.len() == 1);
        }
        if f == ".."@ {
            assert(f[0] == stem[0]);
            assert(f[0] == '.');
        }
    }
    assert(!p.contains('\\')) by {
        if p.contains('\\') {
            let i = choose|i: int| 0 <= i < p.len() && p[i] == '\\';
            if i < dir.len() {
                assert(dir[i] == '\\');
            } else if i < dir.len() + stem.len() {
                assert(stem[i - dir.len()] == '\\');
            } else if i > dir.len() + stem.len() {
                assert(ext[i - dir.len() - stem.len() - 1] == '\\');
            }
        }
    }
    assert(!p.contains(':')) by {
        if p.contains(':') {
            let i = choose|i: int| 0 <= i < p.len() && p[i] == ':';
            if i < dir.len() {
                assert(dir[i] == ':');
            } else if i < dir.len() + stem.len() {
                assert(stem[i - dir.len()] == ':');
            } else if i > dir.len() + stem.len() {
                assert(ext[i - dir.len() - stem.len() - 1] == ':');
            }
        }
    }
    assert(!starts_with(p, "//"@)) by {
        reveal_strlit("//");
        if starts_with(p, "//"@) {
            assert(p.subrange(0, 2)[0] == p[0] && p.subrange(0, 2)[1] == p[1]);
            assert(p[0] == '/' && p[1] == '/');
            if dir.len() >= 2 {
                assert(dir.subrange(0, 2) =~= "//"@);
            } else if dir.len() == 1 {
                assert(p[1] == stem[0]);
            } else {
                assert(p[0] == stem[0]);
            }
        }
    }
}

proof fn lemma_last_dot_is_last_of(s: Seq<char>)
    ensures
        last_dot(s) == last_of(s, '.'),
    decreases s.len(),
{
    if s.len() > 0 {
        lemma_last_dot_is_last_of(s.drop_last());
    }
}

} // verus!
