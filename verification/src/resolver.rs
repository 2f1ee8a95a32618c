//! The resolver: the recursive evaluator that expands component tags,
//! substitutes arguments, registers inline definitions, and streams the
//! result to the output sink.
//!
//! [`spec_resolve`] is the mathematical account of the whole algorithm,
//! stated over plain byte sequences; the executable [`resolve`] is proved
//! to return exactly what it says, error for error and byte for byte.
//!
//! Scoping is deliberately two levels deep: a component body sees the
//! arguments of its own tag (`currentArgs`) and, through the values bound
//! there, the arguments of the call site that supplied them
//! (`parentArgs`); an argument's value is evaluated in the scope of that
//! call site, with the chain collapsing to empty one level further up.

use vstd::prelude::*;

use crate::filepath::{path_of, Filepath};
use crate::files::FileTable;
use crate::grammar::{spec_next_token, trim_of, SToken, STokenResult};
use crate::grammar::lemma_next_token_advances;
use crate::sink::{sink_push, FlushableArena};
use crate::strview::{store_leq, vbytes, view_ok, Store, StrView};
use crate::strview::{lemma_store_leq_trans, lemma_store_leq_view};
use crate::table::{assoc, nva_model, NameValue, NameValueArray};
use crate::table::lemma_nva_model_store_leq;
use crate::token::{Token, Tokeniser};
use crate::Error;

verus! {

/// The extension every component file carries.
pub open spec fn html_ext() -> Seq<u8> {
    seq![104u8, 116u8, 109u8, 108u8]
}

/// What stands fixed for a whole resolution run: the files the input
/// directory holds, the directory's path, and the path buffer's capacity.
pub struct SCtx {
    pub files: Seq<(Seq<u8>, Seq<u8>)>,
    pub dir: Seq<u8>,
    pub fp_cap: nat,
}

/// The state a resolution run threads along: the component cache, the
/// log of file reads performed, and the output sink.
pub struct SState {
    pub cache: Seq<(Seq<u8>, Seq<u8>)>,
    pub reads: Seq<Seq<u8>>,
    pub out_cap: nat,
    pub out_flushed: Seq<u8>,
    pub out_pending: Seq<u8>,
}

/// The output stream so far: flushed bytes then pending ones.
pub open spec fn out_stream(st: SState) -> Seq<u8> {
    st.out_flushed + st.out_pending
}

/// `st` with its sink replaced.
pub open spec fn with_out(st: SState, flushed: Seq<u8>, pending: Seq<u8>) -> SState {
    SState {
        cache: st.cache,
        reads: st.reads,
        out_cap: st.out_cap,
        out_flushed: flushed,
        out_pending: pending,
    }
}

/// `st` with one component added to the cache, and optionally a read
/// recorded.
pub open spec fn with_component(
    st: SState,
    name: Seq<u8>,
    body: Seq<u8>,
    read: Option<Seq<u8>>,
) -> SState {
    SState {
        cache: st.cache.push((name, body)),
        reads: match read {
            Option::Some(p) => st.reads.push(p),
            Option::None => st.reads,
        },
        out_cap: st.out_cap,
        out_flushed: st.out_flushed,
        out_pending: st.out_pending,
    }
}

/// Find a component in the cache, or read it anew and cache it: the body
/// comes back trimmed, the read is logged, and a name that neither the
/// cache nor the directory knows is `ComponentNotFound`. A path too long
/// for the path buffer is `CapacityExceeded`.
pub open spec fn spec_lookup_component(ctx: SCtx, st: SState, name: Seq<u8>) -> Result<
    (SState, Seq<u8>),
    Error,
> {
    match assoc(st.cache, name) {
        Option::Some(body) => Ok((st, body)),
        Option::None => {
            let path = path_of(ctx.dir, name, html_ext());
            if path.len() > ctx.fp_cap {
                Err(Error::CapacityExceeded)
            } else {
                match assoc(ctx.files, path) {
                    Option::None => Err(Error::ComponentNotFound),
                    Option::Some(raw) => Ok(
                        (with_component(st, name, trim_of(raw), Option::Some(path)), trim_of(raw)),
                    ),
                }
            }
        },
    }
}

/// The whole resolution algorithm, token by token from position `pos`:
///
/// - text is copied to the output sink verbatim;
/// - a component tag is looked up or loaded, then its body is resolved
///   with the tag's own attributes as `cur` and the present `cur` as
///   `par`;
/// - an argument reference is resolved to its bound value, which is
///   itself resolved under `cur = par` with an empty parent — the
///   two-level scope;
/// - an inline definition is added to the cache, a duplicate name being
///   fatal;
/// - every expansion consumes one level of `depth`, and running out is
///   `RecursionLimitExceeded`.
///
/// The result is the final state on success, or the first error; errors
/// abort everything, with no partial-success mode.
pub open spec fn spec_resolve(
    ctx: SCtx,
    st: SState,
    text: Seq<u8>,
    pos: int,
    cur: Seq<(Seq<u8>, Seq<u8>)>,
    par: Seq<(Seq<u8>, Seq<u8>)>,
    depth: nat,
) -> Result<SState, Error>
    decreases depth, text.len() - pos when 0 <= pos
{
    match spec_next_token(text, pos) {
        STokenResult::SEnd => Ok(st),
        STokenResult::SSyntaxErr => Err(Error::SyntaxError),
        STokenResult::STok { tok, end } => {
            proof {
                lemma_next_token_advances(text, pos);
            }
            match tok {
                SToken::SText { bytes } => match sink_push(
                    st.out_cap,
                    st.out_flushed,
                    st.out_pending,
                    bytes,
                ) {
                    Option::None => Err(Error::CapacityExceeded),
                    Option::Some(fp) => spec_resolve(
                        ctx,
                        with_out(st, fp.0, fp.1),
                        text,
                        end,
                        cur,
                        par,
                        depth,
                    ),
                },
                SToken::SArg { name } => {
                    if depth == 0 {
                        Err(Error::RecursionLimitExceeded)
                    } else {
                        match assoc(cur, name) {
                            Option::None => Err(Error::ArgumentNotBound),
                            Option::Some(val) => match spec_resolve(
                                ctx,
                                st,
                                val,
                                0,
                                par,
                                Seq::empty(),
                                (depth - 1) as nat,
                            ) {
                                Err(e) => Err(e),
                                Ok(st2) => spec_resolve(ctx, st2, text, end, cur, par, depth),
                            },
                        }
                    }
                },
                SToken::SInline { name, body } => {
                    if assoc(st.cache, name) is Some {
                        Err(Error::DuplicateComponentDefinition)
                    } else {
                        spec_resolve(
                            ctx,
                            with_component(st, name, body, Option::None),
                            text,
                            end,
                            cur,
                            par,
                            depth,
                        )
                    }
                },
                SToken::STag { name, args } => {
                    if depth == 0 {
                        Err(Error::RecursionLimitExceeded)
                    } else {
                        match spec_lookup_component(ctx, st, name) {
                            Err(e) => Err(e),
                            Ok(loaded) => match spec_resolve(
                                ctx,
                                loaded.0,
                                loaded.1,
                                0,
                                args,
                                cur,
                                (depth - 1) as nat,
                            ) {
                                Err(e) => Err(e),
                                Ok(st2) => spec_resolve(ctx, st2, text, end, cur, par, depth),
                            },
                        }
                    }
                },
            }
        },
    }
}

/// Everything one resolution run owns: the store of texts, the component
/// cache, the read log, the path builder, the output sink, and views of
/// the input directory's path and the component file extension.
pub struct Env {
    pub store: Store,
    pub cache: NameValueArray,
    pub reads: Vec<Vec<u8>>,
    pub fp: Filepath,
    pub out: FlushableArena,
    pub dir: StrView,
    pub ext: StrView,
}

/// The environment's views are all valid, its buffers within capacity,
/// and its extension view reads `html`.
pub open spec fn env_wf(e: Env) -> bool {
    &&& e.cache.ok(e.store.texts())
    &&& view_ok(e.store.texts(), e.dir)
    &&& view_ok(e.store.texts(), e.ext)
    &&& vbytes(e.store.texts(), e.ext) == html_ext()
    &&& e.fp.wf()
    &&& e.out.wf()
}

/// The read log as plain sequences.
pub open spec fn reads_model(reads: Seq<Vec<u8>>) -> Seq<Seq<u8>> {
    Seq::new(reads.len(), |i: int| reads[i]@)
}

/// The model state an environment stands for.
pub open spec fn env_sstate(e: Env) -> SState {
    SState {
        cache: e.cache.model(e.store.texts()),
        reads: reads_model(e.reads@),
        out_cap: e.out.cap(),
        out_flushed: e.out.flushed(),
        out_pending: e.out.pending(),
    }
}

/// The model context an environment and a file table stand for.
pub open spec fn env_ctx(e: Env, files: FileTable) -> SCtx {
    SCtx {
        files: files.model(),
        dir: vbytes(e.store.texts(), e.dir),
        fp_cap: e.fp.capacity(),
    }
}

/// Find a component in the cache, or read its file, trim the content,
/// and cache it; the returned view is the (cached) component body.
/// Matches [`spec_lookup_component`] case for case.
fn lookup_or_load(env: &mut Env, files: &FileTable, name: StrView) -> (r: Result<StrView, Error>)
    requires
        env_wf(*old(env)),
        view_ok(old(env).store.texts(), name),
    ensures
        env_wf(*final(env)),
        store_leq(old(env).store.texts(), final(env).store.texts()),
        final(env).dir == old(env).dir,
        final(env).ext == old(env).ext,
        env_ctx(*final(env), *files) == env_ctx(*old(env), *files),
        match r {
            Ok(body) => {
                &&& view_ok(final(env).store.texts(), body)
                &&& spec_lookup_component(
                    env_ctx(*old(env), *files),
                    env_sstate(*old(env)),
                    vbytes(old(env).store.texts(), name),
                ) == Ok::<_, Error>((env_sstate(*final(env)), vbytes(final(env).store.texts(), body)))
            },
            Err(e) => spec_lookup_component(
                env_ctx(*old(env), *files),
                env_sstate(*old(env)),
                vbytes(old(env).store.texts(), name),
            ) == Err::<(SState, Seq<u8>), _>(e),
        },
{
    let ghost t0 = env.store.texts();
    let ghost nameb = vbytes(t0, name);
    match env.cache.find_by_name(&env.store, name) {
        Some(nv) => Ok(nv.value),
        None => {
            let path = match env.fp.build_path(&env.store, env.dir, name, env.ext) {
                Ok(p) => p,
                Err(e) => {
                    return Err(e);
                },
            };
            let content = match files.read(&path) {
                Some(c) => c,
                None => {
                    return Err(Error::ComponentNotFound);
                },
            };
            let ghost contentb = content@;
            env.reads.push(path);
            let raw = env.store.push_text(content);
            let body = env.store.trim(raw);
            proof {
                lemma_store_leq_view(t0, env.store.texts(), name);
                lemma_store_leq_view(t0, env.store.texts(), env.dir);
                lemma_store_leq_view(t0, env.store.texts(), env.ext);
                lemma_nva_model_store_leq(t0, env.store.texts(), env.cache.entries_seq());
            }
            env.cache.push_entry(NameValue { name, value: body });
            proof {
                let t1 = env.store.texts();
                assert(env.cache.model(t1) =~= old(env).cache.model(t0).push(
                    (nameb, trim_of(contentb)),
                ));
                assert(reads_model(env.reads@) =~= reads_model(old(env).reads@).push(
                    path_of(vbytes(t0, old(env).dir), nameb, html_ext()),
                ));
                assert(env_sstate(*env) == with_component(
                    env_sstate(*old(env)),
                    nameb,
                    trim_of(contentb),
                    Option::Some(path_of(vbytes(t0, old(env).dir), nameb, html_ext())),
                ));
            }
            Ok(body)
        },
    }
}

/// Growing the store moves nothing: a text view keeps its bytes and two
/// argument tables keep their pairs.
proof fn lemma_env_step(
    t0: Seq<Seq<u8>>,
    t1: Seq<Seq<u8>>,
    text: StrView,
    a: Seq<NameValue>,
    b: Seq<NameValue>,
)
    requires
        store_leq(t0, t1),
        view_ok(t0, text),
        crate::table::nva_ok(t0, a),
        crate::table::nva_ok(t0, b),
    ensures
        view_ok(t1, text),
        vbytes(t1, text) == vbytes(t0, text),
        crate::table::nva_ok(t1, a),
        nva_model(t1, a) == nva_model(t0, a),
        crate::table::nva_ok(t1, b),
        nva_model(t1, b) == nva_model(t0, b),
{
    lemma_store_leq_view(t0, t1, text);
    lemma_nva_model_store_leq(t0, t1, a);
    lemma_nva_model_store_leq(t0, t1, b);
}

/// Resolve `text` token by token, writing to the environment's output
/// sink: the executable counterpart of [`spec_resolve`], proved to agree
/// with it outcome for outcome.
///
/// The argument bindings a tag carries live only for the expansion of
/// that tag: they are dropped as soon as the recursive call that consumes
/// them returns, so the memory devoted to arguments stays bounded by the
/// nesting depth, never by the number of sibling tags.
pub fn resolve(
    env: &mut Env,
    files: &FileTable,
    text: StrView,
    cur: &NameValueArray,
    par: &NameValueArray,
    depth: usize,
) -> (r: Result<(), Error>)
    requires
        env_wf(*old(env)),
        view_ok(old(env).store.texts(), text),
        cur.ok(old(env).store.texts()),
        par.ok(old(env).store.texts()),
    ensures
        env_wf(*final(env)),
        store_leq(old(env).store.texts(), final(env).store.texts()),
        final(env).dir == old(env).dir,
        final(env).ext == old(env).ext,
        env_ctx(*final(env), *files) == env_ctx(*old(env), *files),
        match r {
            Ok(()) => spec_resolve(
                env_ctx(*old(env), *files),
                env_sstate(*old(env)),
                vbytes(old(env).store.texts(), text),
                0,
                nva_model(old(env).store.texts(), cur.entries_seq()),
                nva_model(old(env).store.texts(), par.entries_seq()),
                depth as nat,
            ) == Ok::<SState, Error>(env_sstate(*final(env))),
            Err(e) => spec_resolve(
                env_ctx(*old(env), *files),
                env_sstate(*old(env)),
                vbytes(old(env).store.texts(), text),
                0,
                nva_model(old(env).store.texts(), cur.entries_seq()),
                nva_model(old(env).store.texts(), par.entries_seq()),
                depth as nat,
            ) == Err::<SState, Error>(e),
        },
    decreases depth,
{
    let ghost t0 = env.store.texts();
    let ghost ctx = env_ctx(*env, *files);
    let ghost st0 = env_sstate(*env);
    let ghost s = vbytes(t0, text);
    let ghost curm = nva_model(t0, cur.entries_seq());
    let ghost parm = nva_model(t0, par.entries_seq());
    let ghost d = depth as nat;
    let mut tk = Tokeniser::new(text);
    loop
        invariant
            env_wf(*env),
            t0 == old(env).store.texts(),
            store_leq(t0, env.store.texts()),
            env.dir == old(env).dir,
            env.ext == old(env).ext,
            ctx == env_ctx(*old(env), *files),
            ctx == env_ctx(*env, *files),
            st0 == env_sstate(*old(env)),
            view_ok(t0, text),
            s == vbytes(t0, text),
            s == vbytes(env.store.texts(), text),
            view_ok(env.store.texts(), text),
            tk.view == text,
            tk.pos <= text.len,
            cur.ok(t0),
            par.ok(t0),
            curm == nva_model(t0, cur.entries_seq()),
            parm == nva_model(t0, par.entries_seq()),
            d == depth as nat,
            spec_resolve(ctx, st0, s, 0, curm, parm, d) == spec_resolve(
                ctx,
                env_sstate(*env),
                s,
                tk.pos as int,
                curm,
                parm,
                d,
            ),
        decreases text.len - tk.pos,
    {
        let ghost pre_st = env_sstate(*env);
        let ghost pos0 = tk.pos as int;
        let ghost t_now = env.store.texts();
        let tok_res = tk.next_token(&env.store);
        match tok_res {
            None => {
                return Ok(());
            },
            Some(Err(e)) => {
                return Err(e);
            },
            Some(Ok(tok)) => {
                let ghost end = tk.pos as int;
                proof {
                    lemma_next_token_advances(s, pos0);
                }
                match tok {
                    Token::Text(v) => {
                        match env.out.push_and_copy(&env.store, v) {
                            Err(e) => {
                                return Err(e);
                            },
                            Ok(()) => {
                                proof {
                                    assert(env_sstate(*env) == with_out(
                                        pre_st,
                                        env.out.flushed(),
                                        env.out.pending(),
                                    ));
                                    assert(spec_resolve(ctx, pre_st, s, pos0, curm, parm, d)
                                        == spec_resolve(
                                        ctx,
                                        env_sstate(*env),
                                        s,
                                        end,
                                        curm,
                                        parm,
                                        d,
                                    ));
                                }
                            },
                        }
                    },
                    Token::Argument(v) => {
                        if depth == 0 {
                            return Err(Error::RecursionLimitExceeded);
                        }
                        proof {
                            lemma_env_step(
                                t0,
                                t_now,
                                text,
                                cur.entries_seq(),
                                par.entries_seq(),
                            );
                        }
                        match cur.find_by_name(&env.store, v) {
                            None => {
                                return Err(Error::ArgumentNotBound);
                            },
                            Some(nv) => {
                                let empty_args = NameValueArray::new();
                                proof {
                                    assert(nva_model(t_now, empty_args.entries_seq())
                                        =~= Seq::<(Seq<u8>, Seq<u8>)>::empty());
                                }
                                let sub = resolve(env, files, nv.value, par, &empty_args, depth - 1);
                                proof {
                                    lemma_store_leq_trans(t0, t_now, env.store.texts());
                                    lemma_env_step(
                                        t0,
                                        env.store.texts(),
                                        text,
                                        cur.entries_seq(),
                                        par.entries_seq(),
                                    );
                                }
                                match sub {
                                    Err(e) => {
                                        return Err(e);
                                    },
                                    Ok(()) => {
                                        proof {
                                            assert(spec_resolve(ctx, pre_st, s, pos0, curm, parm, d)
                                                == spec_resolve(
                                                ctx,
                                                env_sstate(*env),
                                                s,
                                                end,
                                                curm,
                                                parm,
                                                d,
                                            ));
                                        }
                                    },
                                }
                            },
                        }
                    },
                    Token::InlineComponent(nv) => {
                        match env.cache.find_by_name(&env.store, nv.name) {
                            Some(_) => {
                                return Err(Error::DuplicateComponentDefinition);
                            },
                            None => {
                                let ghost nameb = vbytes(t_now, nv.name);
                                let ghost bodyb = vbytes(t_now, nv.value);
                                env.cache.push_entry(nv);
                                proof {
                                    assert(env.cache.model(t_now) =~= pre_st.cache.push(
                                        (nameb, bodyb),
                                    ));
                                    assert(env_sstate(*env) == with_component(
                                        pre_st,
                                        nameb,
                                        bodyb,
                                        Option::None,
                                    ));
                                    assert(spec_resolve(ctx, pre_st, s, pos0, curm, parm, d)
                                        == spec_resolve(
                                        ctx,
                                        env_sstate(*env),
                                        s,
                                        end,
                                        curm,
                                        parm,
                                        d,
                                    ));
                                }
                            },
                        }
                    },
                    Token::ComponentTag(tag) => {
                        if depth == 0 {
                            return Err(Error::RecursionLimitExceeded);
                        }
                        let body = match lookup_or_load(env, files, tag.name) {
                            Err(e) => {
                                return Err(e);
                            },
                            Ok(b) => b,
                        };
                        let ghost t_mid = env.store.texts();
                        proof {
                            lemma_store_leq_trans(t0, t_now, t_mid);
                            lemma_env_step(t0, t_mid, text, cur.entries_seq(), par.entries_seq());
                            lemma_nva_model_store_leq(t_now, t_mid, tag.args.entries_seq());
                        }
                        let sub = resolve(env, files, body, &tag.args, cur, depth - 1);
                        proof {
                            lemma_store_leq_trans(t0, t_mid, env.store.texts());
                            lemma_env_step(
                                t0,
                                env.store.texts(),
                                text,
                                cur.entries_seq(),
                                par.entries_seq(),
                            );
                        }
                        match sub {
                            Err(e) => {
                                return Err(e);
                            },
                            Ok(()) => {
                                proof {
                                    assert(spec_resolve(ctx, pre_st, s, pos0, curm, parm, d)
                                        == spec_resolve(
                                        ctx,
                                        env_sstate(*env),
                                        s,
                                        end,
                                        curm,
                                        parm,
                                        d,
                                    ));
                                }
                            },
                        }
                    },
                }
            },
        }
    }
}

/// What a successful resolution hands back: the resolved document and
/// the log of component files read, in order.
#[derive(Debug)]
pub struct Resolution {
    /// The fully expanded document.
    pub output: Vec<u8>,
    /// The path of every component file read, in reading order; the same
    /// file is never read twice, since the cache answers from then on.
    pub reads: Vec<Vec<u8>>,
}

/// Resolving a whole entry document from a fresh state: empty cache,
/// empty read log, empty sink, no argument scope.
pub open spec fn spec_resolve_document(
    files: Seq<(Seq<u8>, Seq<u8>)>,
    dir: Seq<u8>,
    input: Seq<u8>,
    out_cap: nat,
    fp_cap: nat,
    depth: nat,
) -> Result<(Seq<u8>, Seq<Seq<u8>>), Error> {
    let ctx = SCtx { files, dir, fp_cap };
    let st = SState {
        cache: Seq::empty(),
        reads: Seq::empty(),
        out_cap,
        out_flushed: Seq::empty(),
        out_pending: Seq::empty(),
    };
    match spec_resolve(ctx, st, input, 0, Seq::empty(), Seq::empty(), depth) {
        Ok(st2) => Ok((out_stream(st2), st2.reads)),
        Err(e) => Err(e),
    }
}

/// Resolve one entry document against the files of `input_dir`.
///
/// `out_cap` bounds the output sink's buffer, `path_cap` the path
/// builder's buffer, and `max_depth` how deep component and argument
/// expansion may nest. The result is exactly what
/// [`spec_resolve_document`] says: the expanded bytes and the read log on
/// success, the first error otherwise.
pub fn resolve_document(
    files: &FileTable,
    input_dir: &Vec<u8>,
    input: &Vec<u8>,
    out_cap: usize,
    path_cap: usize,
    max_depth: usize,
) -> (r: Result<Resolution, Error>)
    ensures
        match r {
            Ok(res) => spec_resolve_document(
                files.model(),
                input_dir@,
                input@,
                out_cap as nat,
                path_cap as nat,
                max_depth as nat,
            ) == Ok::<_, Error>((res.output@, reads_model(res.reads@))),
            Err(e) => spec_resolve_document(
                files.model(),
                input_dir@,
                input@,
                out_cap as nat,
                path_cap as nat,
                max_depth as nat,
            ) == Err::<(Seq<u8>, Seq<Seq<u8>>), _>(e),
        },
{
    let mut store = Store::new();
    let dir = store.push_text(crate::strview::clone_bytes(input_dir));
    let ghost ta = store.texts();
    let mut ext_bytes: Vec<u8> = Vec::new();
    ext_bytes.push(104);
    ext_bytes.push(116);
    ext_bytes.push(109);
    ext_bytes.push(108);
    proof {
        assert(ext_bytes@ =~= html_ext());
    }
    let ext = store.push_text(ext_bytes);
    let ghost tb = store.texts();
    let text = store.push_text(crate::strview::clone_bytes(input));
    proof {
        lemma_store_leq_view(ta, tb, dir);
        lemma_store_leq_view(tb, store.texts(), dir);
        lemma_store_leq_view(tb, store.texts(), ext);
    }
    let mut env = Env {
        store,
        cache: NameValueArray::new(),
        reads: Vec::new(),
        fp: Filepath::new(path_cap),
        out: FlushableArena::new(out_cap),
        dir,
        ext,
    };
    let ghost t0 = env.store.texts();
    let ghost ctx = SCtx { files: files.model(), dir: input_dir@, fp_cap: path_cap as nat };
    let ghost st_init = SState {
        cache: Seq::empty(),
        reads: Seq::empty(),
        out_cap: out_cap as nat,
        out_flushed: Seq::empty(),
        out_pending: Seq::empty(),
    };
    proof {
        assert(env.cache.model(t0) =~= Seq::<(Seq<u8>, Seq<u8>)>::empty());
        assert(reads_model(env.reads@) =~= Seq::<Seq<u8>>::empty());
        assert(env_sstate(env) == st_init);
        assert(env_ctx(env, *files) == ctx);
    }
    let cur = NameValueArray::new();
    let par = NameValueArray::new();
    proof {
        assert(nva_model(t0, cur.entries_seq()) =~= Seq::<(Seq<u8>, Seq<u8>)>::empty());
        assert(nva_model(t0, par.entries_seq()) =~= Seq::<(Seq<u8>, Seq<u8>)>::empty());
    }
    match resolve(&mut env, files, text, &cur, &par, max_depth) {
        Err(e) => Err(e),
        Ok(()) => {
            let ghost st2 = env_sstate(env);
            let output = env.out.take_output();
            proof {
                assert(output@ == out_stream(st2));
            }
            Ok(Resolution { output, reads: env.reads })
        },
    }
}

} // verus!
