//! Laws of the resolver, proved once and for all over the model.

use vstd::prelude::*;

use crate::filepath::path_of;
use crate::grammar::{
    is_plain, lemma_next_token_advances, lemma_plain_text_end, spec_next_token, trim_of, SToken,
    STokenResult,
};
use crate::resolver::{
    html_ext, out_stream, spec_lookup_component, spec_resolve, spec_resolve_document, with_component,
    with_out, SCtx, SState,
};
use crate::sink::sink_push;
use crate::table::{assoc, lemma_assoc_push};
use crate::Error;

verus! {

/// Round-trip: a document in which nothing opens a component tag, an
/// argument reference or an inline definition is one single text token,
/// and resolving it writes it to the output unchanged, whatever the
/// files, the directory and the scopes are — provided only that it fits
/// the output buffer at all. No file is read along the way.
pub proof fn lemma_plain_resolves_to_itself(
    files: Seq<(Seq<u8>, Seq<u8>)>,
    dir: Seq<u8>,
    input: Seq<u8>,
    out_cap: nat,
    fp_cap: nat,
    depth: nat,
)
    requires
        is_plain(input),
        input.len() <= out_cap,
    ensures
        spec_resolve_document(files, dir, input, out_cap, fp_cap, depth) == Ok::<
            _,
            Error,
        >((input, Seq::<Seq<u8>>::empty())),
{
    let ctx = SCtx { files, dir, fp_cap };
    let st0 = SState {
        cache: Seq::empty(),
        reads: Seq::empty(),
        out_cap,
        out_flushed: Seq::empty(),
        out_pending: Seq::empty(),
    };
    let e = Seq::<(Seq<u8>, Seq<u8>)>::empty();
    if input.len() == 0 {
        assert(spec_resolve(ctx, st0, input, 0, e, e, depth) == Ok::<_, Error>(st0));
        assert(out_stream(st0) =~= input);
    } else {
        lemma_plain_text_end(input, 0);
        assert(input.subrange(0, input.len() as int) =~= input);
        assert(spec_next_token(input, 0) == STokenResult::STok {
            tok: SToken::SText { bytes: input },
            end: input.len() as int,
        });
        let pushed = sink_push(out_cap, Seq::empty(), Seq::empty(), input);
        assert(Seq::<u8>::empty().len() + input.len() <= out_cap);
        let st1 = with_out(st0, pushed->Some_0.0, pushed->Some_0.1);
        assert(spec_resolve(ctx, st0, input, 0, e, e, depth) == spec_resolve(
            ctx,
            st1,
            input,
            input.len() as int,
            e,
            e,
            depth,
        ));
        assert(spec_next_token(input, input.len() as int) is SEnd);
        assert(spec_resolve(ctx, st1, input, input.len() as int, e, e, depth) == Ok::<
            _,
            Error,
        >(st1));
        assert(out_stream(st1) =~= input);
    }
}

/// Idempotence: once a resolution has produced output in which no
/// special token remains, resolving that output again yields exactly the
/// same bytes — and touches no file.
pub proof fn lemma_resolution_idempotent(
    files: Seq<(Seq<u8>, Seq<u8>)>,
    dir: Seq<u8>,
    input: Seq<u8>,
    out_cap: nat,
    fp_cap: nat,
    depth: nat,
    output: Seq<u8>,
    reads: Seq<Seq<u8>>,
)
    requires
        spec_resolve_document(files, dir, input, out_cap, fp_cap, depth) == Ok::<_, Error>(
            (output, reads),
        ),
        is_plain(output),
        output.len() <= out_cap,
    ensures
        spec_resolve_document(files, dir, output, out_cap, fp_cap, depth) == Ok::<_, Error>(
            (output, Seq::<Seq<u8>>::empty()),
        ),
{
    lemma_plain_resolves_to_itself(files, dir, output, out_cap, fp_cap, depth);
}

/// The component name a component path was built from.
pub open spec fn component_name_of(dir: Seq<u8>, path: Seq<u8>) -> Seq<u8> {
    path.subrange(dir.len() as int + 1, path.len() as int - 6)
}

pub proof fn lemma_path_name_roundtrip(dir: Seq<u8>, name: Seq<u8>)
    ensures
        component_name_of(dir, path_of(dir, name, html_ext())) == name,
{
    assert(component_name_of(dir, path_of(dir, name, html_ext())) =~= name);
}

/// Every path in the read log was built from a component name that the
/// cache now answers for, and no path stands in the log twice.
pub open spec fn reads_wf(ctx: SCtx, st: SState) -> bool {
    &&& (forall|i: int, j: int|
        0 <= i < j < st.reads.len() ==> #[trigger] st.reads[i] != #[trigger] st.reads[j])
    &&& (forall|i: int|
        0 <= i < st.reads.len() ==> {
            &&& #[trigger] st.reads[i] == path_of(
                ctx.dir,
                component_name_of(ctx.dir, st.reads[i]),
                html_ext(),
            )
            &&& assoc(st.cache, component_name_of(ctx.dir, st.reads[i])) is Some
        })
}

/// Growing the cache never takes an answer away.
proof fn lemma_reads_wf_cache_push(ctx: SCtx, st: SState, name: Seq<u8>, body: Seq<u8>)
    requires
        reads_wf(ctx, st),
    ensures
        reads_wf(ctx, with_component(st, name, body, Option::None)),
{
    let st2 = with_component(st, name, body, Option::None);
    assert forall|i: int| 0 <= i < st2.reads.len() implies {
        &&& #[trigger] st2.reads[i] == path_of(
            ctx.dir,
            component_name_of(ctx.dir, st2.reads[i]),
            html_ext(),
        )
        &&& assoc(st2.cache, component_name_of(ctx.dir, st2.reads[i])) is Some
    } by {
        assert(st.reads[i] == st2.reads[i]);
        lemma_assoc_push(st.cache, (name, body), component_name_of(ctx.dir, st.reads[i]), 0);
    }
}

/// Looking a component up keeps the read log lawful: a cache hit leaves
/// it alone, and a load appends a path that was never read before —
/// because its name was not yet cached — while caching that very name.
proof fn lemma_lookup_reads_wf(ctx: SCtx, st: SState, name: Seq<u8>)
    requires
        reads_wf(ctx, st),
    ensures
        match spec_lookup_component(ctx, st, name) {
            Ok(loaded) => reads_wf(ctx, loaded.0),
            Err(_) => true,
        },
{
    match assoc(st.cache, name) {
        Option::Some(_) => {},
        Option::None => {
            let path = path_of(ctx.dir, name, html_ext());
            if path.len() <= ctx.fp_cap {
                match assoc(ctx.files, path) {
                    Option::None => {},
                    Option::Some(raw) => {
                        let st2 = with_component(st, name, trim_of(raw), Option::Some(path));
                        lemma_path_name_roundtrip(ctx.dir, name);
                        assert forall|i: int| 0 <= i < st.reads.len() implies #[trigger] st.reads[i]
                            != path by {
                            if st.reads[i] == path {
                                assert(component_name_of(ctx.dir, st.reads[i]) == name);
                            }
                        }
                        assert forall|i: int| 0 <= i < st2.reads.len() implies {
                            &&& #[trigger] st2.reads[i] == path_of(
                                ctx.dir,
                                component_name_of(ctx.dir, st2.reads[i]),
                                html_ext(),
                            )
                            &&& assoc(st2.cache, component_name_of(ctx.dir, st2.reads[i])) is Some
                        } by {
                            lemma_assoc_push(
                                st.cache,
                                (name, trim_of(raw)),
                                component_name_of(ctx.dir, st2.reads[i]),
                                0,
                            );
                            if i < st.reads.len() {
                                assert(st2.reads[i] == st.reads[i]);
                            } else {
                                assert(st2.reads[i] == path);
                            }
                        }
                    },
                }
            }
        },
    }
}

/// Resolution keeps the read log lawful: starting from a lawful state,
/// whatever it resolves, the final log still maps one-to-one onto cached
/// component names.
pub proof fn lemma_resolve_reads_wf(
    ctx: SCtx,
    st: SState,
    text: Seq<u8>,
    pos: int,
    cur: Seq<(Seq<u8>, Seq<u8>)>,
    par: Seq<(Seq<u8>, Seq<u8>)>,
    depth: nat,
)
    requires
        0 <= pos,
        reads_wf(ctx, st),
    ensures
        match spec_resolve(ctx, st, text, pos, cur, par, depth) {
            Ok(st2) => reads_wf(ctx, st2),
            Err(_) => true,
        },
    decreases depth, text.len() - pos,
{
    match spec_next_token(text, pos) {
        STokenResult::SEnd => {},
        STokenResult::SSyntaxErr => {},
        STokenResult::STok { tok, end } => {
            lemma_next_token_advances(text, pos);
            match tok {
                SToken::SText { bytes } => {
                    match sink_push(st.out_cap, st.out_flushed, st.out_pending, bytes) {
                        Option::None => {},
                        Option::Some(fp) => {
                            lemma_resolve_reads_wf(
                                ctx,
                                with_out(st, fp.0, fp.1),
                                text,
                                end,
                                cur,
                                par,
                                depth,
                            );
                        },
                    }
                },
                SToken::SArg { name } => {
                    if depth > 0 {
                        match assoc(cur, name) {
                            Option::None => {},
                            Option::Some(val) => {
                                lemma_resolve_reads_wf(
                                    ctx,
                                    st,
                                    val,
                                    0,
                                    par,
                                    Seq::empty(),
                                    (depth - 1) as nat,
                                );
                                match spec_resolve(
                                    ctx,
                                    st,
                                    val,
                                    0,
                                    par,
                                    Seq::empty(),
                                    (depth - 1) as nat,
                                ) {
                                    Err(_) => {},
                                    Ok(st2) => {
                                        lemma_resolve_reads_wf(
                                            ctx,
                                            st2,
                                            text,
                                            end,
                                            cur,
                                            par,
                                            depth,
                                        );
                                    },
                                }
                            },
                        }
                    }
                },
                SToken::SInline { name, body } => {
                    if !(assoc(st.cache, name) is Some) {
                        lemma_reads_wf_cache_push(ctx, st, name, body);
                        lemma_resolve_reads_wf(
                            ctx,
                            with_component(st, name, body, Option::None),
                            text,
                            end,
                            cur,
                            par,
                            depth,
                        );
                    }
                },
                SToken::STag { name, args } => {
                    if depth > 0 {
                        lemma_lookup_reads_wf(ctx, st, name);
                        match spec_lookup_component(ctx, st, name) {
                            Err(_) => {},
                            Ok(loaded) => {
                                lemma_resolve_reads_wf(
                                    ctx,
                                    loaded.0,
                                    loaded.1,
                                    0,
                                    args,
                                    cur,
                                    (depth - 1) as nat,
                                );
                                match spec_resolve(
                                    ctx,
                                    loaded.0,
                                    loaded.1,
                                    0,
                                    args,
                                    cur,
                                    (depth - 1) as nat,
                                ) {
                                    Err(_) => {},
                                    Ok(st2) => {
                                        lemma_resolve_reads_wf(
                                            ctx,
                                            st2,
                                            text,
                                            end,
                                            cur,
                                            par,
                                            depth,
                                        );
                                    },
                                }
                            },
                        }
                    }
                },
            }
        },
    }
}

/// Cache reuse: in any successful resolution of an entry document, no
/// component file's path stands in the read log twice — using the same
/// component name any number of times reads its file exactly once, and
/// the cache answers from then on.
pub proof fn lemma_each_component_read_once(
    files: Seq<(Seq<u8>, Seq<u8>)>,
    dir: Seq<u8>,
    input: Seq<u8>,
    out_cap: nat,
    fp_cap: nat,
    depth: nat,
    output: Seq<u8>,
    reads: Seq<Seq<u8>>,
)
    requires
        spec_resolve_document(files, dir, input, out_cap, fp_cap, depth) == Ok::<_, Error>(
            (output, reads),
        ),
    ensures
        forall|i: int, j: int| 0 <= i < j < reads.len() ==> reads[i] != reads[j],
{
    let ctx = SCtx { files, dir, fp_cap };
    let st0 = SState {
        cache: Seq::empty(),
        reads: Seq::empty(),
        out_cap,
        out_flushed: Seq::empty(),
        out_pending: Seq::empty(),
    };
    assert(reads_wf(ctx, st0));
    lemma_resolve_reads_wf(ctx, st0, input, 0, Seq::empty(), Seq::empty(), depth);
}

} // verus!
