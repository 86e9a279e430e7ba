//! One make query: how it is invoked and what its output means.
use vstd::prelude::*;

use crate::model::origin::{KeyView, PortKey};
use crate::model::port::{InfoView, PortInfo};
use crate::order::{duplicate_opt, Duplicate};
use crate::path::{join_path, joined};
use crate::query::parse::{dump_result, last_lines_with, last_of, parse_dump, result_view};
use crate::text::{glue, glue3, has_text, holds, opt_view, owned, views, Str};

verus! {

/// Everything a worker needs to run one make query.
#[derive(Debug)]
pub struct QueryCtx {
    pub portsdir: String,
    /// Layered make.conf passed as __MAKE_CONF (None = leave make's default).
    pub make_conf: Option<String>,
    /// PORT_DBDIR the query should see (real options dir, or staging).
    pub port_dbdir: String,
}

#[verifier::ext_equal]
pub struct CtxView {
    pub portsdir: Str,
    pub make_conf: Option<Str>,
    pub port_dbdir: Str,
}

impl View for QueryCtx {
    type V = CtxView;

    open spec fn view(&self) -> CtxView {
        CtxView {
            portsdir: self.portsdir@,
            make_conf: opt_view(self.make_conf),
            port_dbdir: self.port_dbdir@,
        }
    }
}

impl Duplicate for QueryCtx {
    fn duplicate(&self) -> (r: Self) {
        QueryCtx {
            portsdir: self.portsdir.clone(),
            make_conf: duplicate_opt(&self.make_conf),
            port_dbdir: self.port_dbdir.clone(),
        }
    }
}

/// The directory of a port.
pub open spec fn dir_of(ctx: CtxView, key: KeyView) -> Str {
    joined(ctx.portsdir, key.origin)
}

/// The arguments of the make that dumps a port.
pub open spec fn args_of(ctx: CtxView, key: KeyView) -> Seq<Str> {
    let dir = dir_of(ctx, key);
    seq![
        "-C"@,
        dir,
        "-f"@,
        "/dev/stdin"@,
        "optique-config"@,
        "PORTDIR="@ + dir,
        "PORT_DBDIR="@ + ctx.port_dbdir,
    ] + (match ctx.make_conf {
        Some(c) => seq!["__MAKE_CONF="@ + c],
        None => Seq::empty(),
    }) + (match key.flavor {
        Some(f) => seq!["FLAVOR="@ + f],
        None => Seq::empty(),
    })
}

/// The directory of a port.
pub fn port_dir(ctx: &QueryCtx, key: &PortKey) -> (r: String)
    ensures
        r@ == dir_of(ctx@, key@),
{
    join_path(ctx.portsdir.as_str(), key.origin.as_str())
}

/// The arguments of the make that dumps a port.
pub fn make_args(ctx: &QueryCtx, key: &PortKey) -> (r: Vec<String>)
    ensures
        views(r@) == args_of(ctx@, key@),
{
    let dir = port_dir(ctx, key);
    let mut r: Vec<String> = Vec::new();
    r.push(owned("-C"));
    r.push(dir.clone());
    r.push(owned("-f"));
    r.push(owned("/dev/stdin"));
    r.push(owned("optique-config"));
    r.push(glue("PORTDIR=", dir.as_str()));
    r.push(glue("PORT_DBDIR=", ctx.port_dbdir.as_str()));
    if let Some(c) = &ctx.make_conf {
        r.push(glue("__MAKE_CONF=", c.as_str()));
    }
    if let Some(f) = &key.flavor {
        r.push(glue("FLAVOR=", f.as_str()));
    }
    assert(views(r@) =~= args_of(ctx@, key@));
    r
}

/// What to say of a port that has no Makefile.
pub fn missing_port(ctx: &QueryCtx, key: &PortKey) -> (r: String)
    ensures
        r@ == "no such port: "@ + key@.origin + " ("@ + dir_of(ctx@, key@) + " missing)"@,
{
    let dir = port_dir(ctx, key);
    let mut r = glue3("no such port: ", key.origin.as_str(), " (");
    r.append(dir.as_str());
    r.append(" missing)");
    r
}

/// What the output of a make means: an error where make failed without dumping
/// anything, else what the dump says.
pub open spec fn output_result(
    key: KeyView,
    stderr: Str,
    stdout: Str,
    success: bool,
    status: Str,
) -> Result<InfoView, Str> {
    let text = stderr + stdout;
    if !success && !holds(text, "OPTIQUE|"@) {
        Err("make failed ("@ + status + "): "@ + last_of(text, 5, " | "@))
    } else {
        dump_result(key, text)
    }
}

/// A query that succeeds is about the port it was made for.
pub proof fn law_output_keyed(
    key: KeyView,
    stderr: Str,
    stdout: Str,
    success: bool,
    status: Str,
)
    ensures
        output_result(key, stderr, stdout, success, status) matches Ok(info) ==> info.key == key,
{
}

/// Judge the output of the wrapper makefile for one port@flavor.
pub fn read_output(key: &PortKey, stderr: &str, stdout: &str, success: bool, status: &str) -> (r:
    Result<PortInfo, String>)
    ensures
        result_view(r) == output_result(key@, stderr@, stdout@, success, status@),
{
    let text = glue(stderr, stdout);
    if !success && !has_text(text.as_str(), "OPTIQUE|") {
        let tail = last_lines_with(text.as_str(), 5, " | ");
        let mut e = glue3("make failed (", status, "): ");
        e.append(tail.as_str());
        return Err(e);
    }
    parse_dump(key, text.as_str())
}

/// Make runs in the port's directory and is told the options dir, and the
/// layered make.conf and the flavor where there are such.
pub proof fn law_make_args(ctx: CtxView, key: KeyView, conf: Str, flavor: Str)
    ensures
        ({
            let args = args_of(ctx, key);
            &&& args[0] == "-C"@ && args[1] == joined(ctx.portsdir, key.origin)
            &&& args.contains("PORTDIR="@ + joined(ctx.portsdir, key.origin))
            &&& args.contains("PORT_DBDIR="@ + ctx.port_dbdir)
            &&& ctx.make_conf == Some(conf) ==> args[7] == "__MAKE_CONF="@ + conf
            &&& key.flavor == Some(flavor) ==> args.last() == "FLAVOR="@ + flavor
            &&& args.len() == 7 + (if ctx.make_conf is Some {
                1int
            } else {
                0
            }) + (if key.flavor is Some {
                1int
            } else {
                0
            })
        }),
{
    let args = args_of(ctx, key);
    assert(args[5] == "PORTDIR="@ + joined(ctx.portsdir, key.origin));
    assert(args[6] == "PORT_DBDIR="@ + ctx.port_dbdir);
}

/// A make that failed without a dump is an error; otherwise the dump counts,
/// wherever it was printed.
pub proof fn law_output(key: KeyView, stderr: Str, stdout: Str, success: bool, status: Str)
    ensures
        success ==> output_result(key, stderr, stdout, success, status) == dump_result(
            key,
            stderr + stdout,
        ),
        holds(stderr + stdout, "OPTIQUE|"@) ==> output_result(key, stderr, stdout, success, status)
            == dump_result(key, stderr + stdout),
        !success && !holds(stderr + stdout, "OPTIQUE|"@) ==> output_result(
            key,
            stderr,
            stdout,
            success,
            status,
        ) is Err,
{
}

} // verus!
