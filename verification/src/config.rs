//! The tool's own configuration: the per-platform configuration directory,
//! the key-value content of the global configuration file, and the routine
//! library's store.

use vstd::prelude::*;
use vstd::string::StringExecFns;
use crate::codec::{
    split_lines, split_to_lines, toks_of, parse_line, parse_line_spec, LineTok,
    ValueV, render_sline, join_lines, join_exec, line_views,
};
use crate::errors::ActError;

verus! {

/// The platform family the tool runs on.
#[derive(Clone, Copy, PartialEq, Eq, Structural)]
pub enum OSType {
    Windows,
    Unix,
}

/// The configuration directory for the platform family.
pub fn get_config_dir(ostype: OSType) -> (r: String)
    ensures
        ostype == OSType::Unix ==> r@ == "~/.config/active/"@,
        ostype == OSType::Windows ==> r@ == "%USERPROFILE%/active/"@,
{
    if ostype == OSType::Unix {
        "~/.config/active/".to_owned()
    } else {
        "%USERPROFILE%/active/".to_owned()
    }
}

/// A summary of one configuration directory: its name and the definition
/// files found in it.
pub struct ConfigDirectory {
    pub name: String,
    pub count: usize,
    pub files: Vec<String>,
}

impl ConfigDirectory {
    /// Builds the summary from a directory's name and its scanned files;
    /// the count always matches the file list.
    pub fn get_config(name: String, files: Vec<String>) -> (r: Self)
        ensures
            r.name@ == name@,
            r.files@ == files@,
            r.count == files@.len(),
    {
        let count = files.len();
        ConfigDirectory { name, count, files }
    }
}

/// Folds the configuration lines into key-value pairs, in file order; any
/// header, non-string value or malformed line fails the read.
pub open spec fn cfg_run(toks: Seq<LineTok>, acc: Seq<(Seq<char>, Seq<char>)>) -> Option<
    Seq<(Seq<char>, Seq<char>)>,
>
    decreases toks.len(),
{
    if toks.len() == 0 {
        Some(acc)
    } else {
        match toks[0] {
            LineTok::Blank => cfg_run(toks.drop_first(), acc),
            LineTok::Kv(k, v) => match v {
                ValueV::VStr(s) => cfg_run(toks.drop_first(), acc.push((k, s))),
                _ => None,
            },
            _ => None,
        }
    }
}

/// What reading the global configuration file yields.
pub open spec fn read_config_spec(text: Seq<char>) -> Option<Seq<(Seq<char>, Seq<char>)>> {
    cfg_run(toks_of(split_lines(text)), Seq::empty())
}

/// The pairs' contents.
pub open spec fn items_view(v: Seq<(String, String)>) -> Seq<(Seq<char>, Seq<char>)> {
    v.map_values(|it: (String, String)| (it.0@, it.1@))
}

/// Reads the global configuration file's text: one `key = "value"` line per
/// setting, blank lines and comments ignored.
pub fn read_config(text: &str) -> (r: Result<Vec<(String, String)>, ActError>)
    ensures
        match r {
            Ok(v) => read_config_spec(text@) == Some(items_view(v@)),
            Err(e) => read_config_spec(text@) is None && e is ParseError,
        },
{
    let lines = split_to_lines(text);
    let ghost toks = toks_of(split_lines(text@));
    let mut acc: Vec<(String, String)> = Vec::new();
    let n = lines.len();
    let mut i: usize = 0;
    proof {
        assert(toks.skip(0) =~= toks);
        assert(items_view(acc@) =~= Seq::<(Seq<char>, Seq<char>)>::empty());
    }
    while i < n
        invariant
            n == lines@.len(),
            lines@.map_values(|l: String| l@) == split_lines(text@),
            toks == toks_of(split_lines(text@)),
            i <= n,
            n == toks.len(),
            cfg_run(toks, Seq::empty()) == cfg_run(toks.skip(i as int), items_view(acc@)),
        decreases n - i,
    {
        proof {
            assert(lines@.map_values(|l: String| l@)[i as int] == lines@[i as int]@);
            assert(toks[i as int] == parse_line_spec(lines@[i as int]@));
            assert(toks.skip(i as int)[0] == toks[i as int]);
            assert(toks.skip(i as int).drop_first() =~= toks.skip(i as int + 1));
        }
        match parse_line(lines[i].as_str()) {
            crate::codec::ParsedLine::Blank => {
            },
            crate::codec::ParsedLine::Kv(k, v) => {
                match v {
                    crate::codec::TomlValue::Str(s) => {
                        let ghost prev = items_view(acc@);
                        let ghost kk = k@;
                        let ghost ss = s@;
                        acc.push((k, s));
                        proof {
                            assert(toks.skip(i as int)[0] == LineTok::Kv(kk, ValueV::VStr(ss)));
                            assert(cfg_run(toks.skip(i as int), prev) == cfg_run(
                                toks.skip(i as int + 1),
                                prev.push((kk, ss)),
                            ));
                            assert(items_view(acc@) =~= prev.push((kk, ss)));
                        }
                    },
                    _ => {
                        return Err(ActError::ParseError("setting".to_owned()));
                    },
                }
            },
            _ => {
                return Err(ActError::ParseError("setting".to_owned()));
            },
        }
        i += 1;
    }
    proof {
        assert(toks.skip(n as int) =~= Seq::<LineTok>::empty());
    }
    Ok(acc)
}

/// The text of the global configuration file for the given settings.
pub open spec fn write_config_spec(items: Seq<(Seq<char>, Seq<char>)>) -> Seq<char> {
    join_lines(items.map_values(|it: (Seq<char>, Seq<char>)| render_sline(it.0, it.1)))
}

/// Writes the global configuration file's text: one `key = "value"` line
/// per setting.
pub fn write_config(items: &Vec<(String, String)>) -> (r: String)
    ensures
        r@ == write_config_spec(items_view(items@)),
{
    let ghost iv = items_view(items@);
    let mut lines: Vec<String> = Vec::new();
    let n = items.len();
    let mut i: usize = 0;
    while i < n
        invariant
            n == items@.len(),
            iv == items_view(items@),
            i <= n,
            line_views(lines@) == iv.take(i as int).map_values(
                |it: (Seq<char>, Seq<char>)| render_sline(it.0, it.1),
            ),
        decreases n - i,
    {
        let mut s = items[i].0.clone();
        s.append(" = \"");
        s.append(items[i].1.as_str());
        s.append("\"");
        proof {
            assert(iv[i as int] == (items@[i as int].0@, items@[i as int].1@));
            assert(s@ == render_sline(iv[i as int].0, iv[i as int].1));
        }
        lines.push(s);
        proof {
            assert(iv.take(i as int + 1) =~= iv.take(i as int).push(iv[i as int]));
            assert(iv.take(i as int + 1).map_values(
                |it: (Seq<char>, Seq<char>)| render_sline(it.0, it.1),
            ) =~= iv.take(i as int).map_values(
                |it: (Seq<char>, Seq<char>)| render_sline(it.0, it.1),
            ).push(render_sline(iv[i as int].0, iv[i as int].1)));
            assert(line_views(lines@) =~= line_views(lines@.drop_last()).push(
                render_sline(iv[i as int].0, iv[i as int].1),
            ));
        }
        i += 1;
    }
    proof {
        assert(iv.take(n as int) =~= iv);
    }
    join_exec(&lines)
}

/// Reads the routine library's store: the registry's backing format.
pub fn read_library(text: &str) -> (r: Result<Vec<crate::registry::ListerEntry>, ActError>)
    ensures
        match r {
            Ok(v) => crate::registry::store_read_spec(text@) == Some(
                crate::registry::entries_view(v@),
            ) && crate::registry::titles_unique(crate::registry::entries_view(v@)),
            Err(e) => crate::registry::store_read_spec(text@) is None && e is ParseError,
        },
{
    crate::registry::Lister::parse_lister_file(text)
}

} // verus!
