//! The routine view handed to the command line for display: every field of
//! a routine as a named row, and the `info` entry point that builds it from
//! a definition file's content.

use vstd::prelude::*;
use vstd::string::StringExecFns;
use crate::errors::ActError;
use crate::routine::{Routine, RoutineV};
use crate::codec::{read_spec, render_elems, render_elems_exec};

verus! {

/// One displayed row: a field's name and its rendered value.
#[derive(Debug)]
pub struct InfoRow {
    pub name: String,
    pub value: String,
}

/// The words a flag renders as.
pub open spec fn bool_str(b: bool) -> Seq<char> {
    if b {
        "true"@
    } else {
        "false"@
    }
}

/// An optional value renders as itself, or as the word `None`.
pub open spec fn opt_str(o: Option<Seq<char>>) -> Seq<char> {
    match o {
        Some(s) => s,
        None => "None"@,
    }
}

/// The exclude list renders bracketed, quoted and comma-separated.
pub open spec fn list_str(es: Seq<Seq<char>>) -> Seq<char> {
    "["@ + render_elems(es) + "]"@
}

/// The rows of a routine's view, in display order.
pub open spec fn rows_spec(rv: RoutineV) -> Seq<(Seq<char>, Seq<char>)> {
    seq![
        ("Title"@, rv.base.title),
        ("Path"@, rv.base.path),
        ("Interval Timestamp"@, bool_str(rv.base.interval.timestamp)),
        ("Commit Interval"@, rv.base.interval.commit_interval),
        ("Sync Method"@, rv.base.interval.sync_method),
        ("Time Zone"@, rv.base.interval.time_zone),
        ("Last Sync Time"@, opt_str(rv.base.interval.last_sync_time)),
        ("Encrypt"@, bool_str(rv.crypt.encrypt)),
        ("Password"@, opt_str(rv.crypt.password)),
        ("Password Eval"@, opt_str(rv.crypt.password_eval)),
        ("Compression"@, rv.press.compression),
        ("Exclude"@, list_str(rv.advanced.exclude)),
        ("Sync On Startup"@, bool_str(rv.advanced.sync_on_startup)),
        ("Notify Topic"@, rv.ntfy.ntfy_topic),
        ("Notification on Success"@, bool_str(rv.ntfy.notification_on_success)),
        ("Notification on Failure"@, bool_str(rv.ntfy.notification_on_failure)),
        ("Git Remote"@, rv.git.remote),
        ("Git Branch"@, rv.git.branch),
        ("Force Push"@, bool_str(rv.git.force_push)),
    ]
}

/// The rows' contents.
pub open spec fn rows_view(v: Seq<InfoRow>) -> Seq<(Seq<char>, Seq<char>)> {
    v.map_values(|r: InfoRow| (r.name@, r.value@))
}

fn bool_string(b: bool) -> (r: String)
    ensures
        r@ == bool_str(b),
{
    if b {
        "true".to_owned()
    } else {
        "false".to_owned()
    }
}

fn opt_string(o: &Option<String>) -> (r: String)
    ensures
        r@ == opt_str(crate::routine::view_opt(*o)),
{
    match o {
        Some(s) => s.clone(),
        None => "None".to_owned(),
    }
}

fn list_string(es: &Vec<String>) -> (r: String)
    ensures
        r@ == list_str(es@.map_values(|x: String| x@)),
{
    let inner = render_elems_exec(es);
    let mut s = "[".to_owned();
    s.append(inner.as_str());
    s.append("]");
    s
}

fn push_row(out: &mut Vec<InfoRow>, name: &str, value: String)
    ensures
        rows_view(final(out)@) == rows_view(old(out)@).push((name@, value@)),
{
    out.push(InfoRow { name: name.to_owned(), value });
    proof {
        assert(rows_view(out@) =~= rows_view(out@.drop_last()).push(
            (out@.last().name@, out@.last().value@),
        ));
    }
}

impl Routine {
    /// Every field of the routine as a named row, in display order.
    pub fn rows(&self) -> (r: Vec<InfoRow>)
        ensures
            rows_view(r@) == rows_spec(self@),
    {
        let mut out: Vec<InfoRow> = Vec::new();
        push_row(&mut out, "Title", self.base.title.clone());
        push_row(&mut out, "Path", self.base.path.clone());
        push_row(&mut out, "Interval Timestamp", bool_string(self.base.interval.timestamp));
        push_row(&mut out, "Commit Interval", self.base.interval.commit_interval.clone());
        push_row(&mut out, "Sync Method", self.base.interval.sync_method.clone());
        push_row(&mut out, "Time Zone", self.base.interval.time_zone.clone());
        push_row(&mut out, "Last Sync Time", opt_string(&self.base.interval.last_sync_time));
        push_row(&mut out, "Encrypt", bool_string(self.crypt.encrypt));
        push_row(&mut out, "Password", opt_string(&self.crypt.password));
        push_row(&mut out, "Password Eval", opt_string(&self.crypt.password_eval));
        push_row(&mut out, "Compression", self.press.compression.clone());
        push_row(&mut out, "Exclude", list_string(&self.advanced.exclude));
        push_row(&mut out, "Sync On Startup", bool_string(self.advanced.sync_on_startup));
        push_row(&mut out, "Notify Topic", self.ntfy.ntfy_topic.clone());
        push_row(
            &mut out,
            "Notification on Success",
            bool_string(self.ntfy.notification_on_success),
        );
        push_row(
            &mut out,
            "Notification on Failure",
            bool_string(self.ntfy.notification_on_failure),
        );
        push_row(&mut out, "Git Remote", self.git.remote.clone());
        push_row(&mut out, "Git Branch", self.git.branch.clone());
        push_row(&mut out, "Force Push", bool_string(self.git.force_push));
        proof {
            assert(rows_view(out@) =~= rows_spec(self@));
        }
        out
    }
}

/// Builds the routine view behind the command line's `info`: handed the
/// definition file's content, or nothing when the routine file does not
/// exist. A missing file reports `NotFound`, a malformed one the parse
/// failure; this function never panics.
pub fn info(content: &Option<String>) -> (r: Result<Vec<InfoRow>, ActError>)
    ensures
        content is None ==> (r matches Err(e) && e is NotFound),
        content matches Some(text) ==> match read_spec(text@) {
            Ok(v) => r matches Ok(rows) && rows_view(rows@) == rows_spec(v),
            Err(f) => r matches Err(e) && (e matches ActError::ParseError(m) && m@ == f),
        },
{
    match content {
        None => Err(ActError::NotFound),
        Some(text) => {
            match Routine::read(text.as_str()) {
                Ok(rt) => Ok(rt.rows()),
                Err(e) => Err(e),
            }
        },
    }
}

} // verus!
