use vstd::prelude::*;

use crate::assemble::concat_contents;
use crate::assemble::full_include_list;
use crate::assemble::generate_final_file_to_test;
use crate::assemble::glued;
use crate::assemble::mandatory_names;
use crate::cache::IncludeCache;
use crate::cache::lemma_load_at_most_once;
use crate::cache::missing_from;
use crate::metadata::Frontmatter;
use crate::metadata::block_interior;
use crate::metadata::extract_frontmatter;
use crate::metadata::good_block;
use crate::metadata::malformed_block;
use crate::metadata::no_block;
use crate::outcome::ExecOutcome;
use crate::outcome::failed_count;
use crate::outcome::invalid_count;
use crate::outcome::is_fail;
use crate::outcome::is_invalid;
use crate::outcome::is_pass;
use crate::outcome::is_run;
use crate::outcome::passed_count;
use crate::outcome::run_count;
use crate::outcome::FileOutcome;
use crate::outcome::SkipReason;
use crate::reporter::Diagnostics;
use crate::reporter::tallied;
use crate::yaml::declared_includes;
use crate::yaml::declared_of;

verus! {

/// What a file's full snippet request reads as, once every name is held: each
/// requested name's stored content in request order, a newline after each.
pub open spec fn resolved_prelude(m: Map<Seq<char>, Seq<char>>, names: Seq<Seq<char>>) -> Seq<
    char,
> {
    glued(names.map_values(|n: Seq<char>| m[n]))
}

/// Resolve one file's full snippet request — the mandatory pair, then its
/// declared names in order — against the shared cache. A name whose content is
/// not yet held is loaded through `loader` exactly once and stored; a name
/// already held is never loaded again; a name the loader cannot provide aborts
/// the request with that name. On success the joined prelude text is handed
/// back. The cache grows only by loader-provided entries for requested names,
/// and a request whose names are all held, or whose loader cannot fail, is
/// owed success.
pub fn get_contents<L: Fn(String) -> Option<String>>(
    cache: &mut IncludeCache,
    declared: &Vec<String>,
    loader: L,
) -> (r: Result<String, String>)
    requires
        forall|n: String| call_requires(loader, (n,)),
    ensures
        forall|k: Seq<char>| #[trigger]
            old(cache)@.contains_key(k) ==> final(cache)@.contains_key(k) && final(cache)@[k]
                == old(cache)@[k],
        forall|k: Seq<char>| #[trigger]
            final(cache)@.contains_key(k) && !old(cache)@.contains_key(k) ==> (mandatory_names()
                + declared.deep_view()).contains(k) && (exists|nm: String, c: String|
                nm@ == k && c@ == final(cache)@[k] && call_ensures(
                    loader,
                    (nm,),
                    Option::Some(c),
                )),
        (forall|i: int|
            0 <= i < (mandatory_names() + declared.deep_view()).len() ==> old(
                cache,
            )@.contains_key(#[trigger] (mandatory_names() + declared.deep_view())[i])) ==> r is Ok,
        (forall|nm: String, o: Option<String>| call_ensures(loader, (nm,), o) ==> o is Some)
            ==> r is Ok,
        match r {
            Ok(contents) => {
                &&& forall|i: int|
                    0 <= i < (mandatory_names() + declared.deep_view()).len() ==> final(cache)@.contains_key(#[trigger] (mandatory_names() + declared.deep_view())[i])
                &&& contents@ == resolved_prelude(
                    final(cache)@,
                    mandatory_names() + declared.deep_view(),
                )
            },
            Err(n) => {
                &&& !final(cache)@.contains_key(n@)
                &&& (mandatory_names() + declared.deep_view()).contains(n@)
                &&& exists|nm: String|
                    nm@ == n@ && call_ensures(loader, (nm,), Option::<String>::None)
            },
        },
{
    let ghost m0 = cache@;
    let full = full_include_list(declared);
    let missing = cache.missing_names(&full);
    let mut j: usize = 0;
    while j < missing.len()
        invariant
            j <= missing.len(),
            m0 == old(cache)@,
            missing.deep_view() == missing_from(m0, full.deep_view()),
            full.deep_view() == mandatory_names() + declared.deep_view(),
            forall|k: Seq<char>| #[trigger]
                m0.contains_key(k) ==> cache@.contains_key(k) && cache@[k] == m0[k],
            forall|jj: int| 0 <= jj < j ==> cache@.contains_key(#[trigger] missing.deep_view()[jj]),
            forall|k: Seq<char>| #[trigger]
                cache@.contains_key(k) ==> m0.contains_key(k) || (exists|jj: int|
                    0 <= jj < j && missing.deep_view()[jj] == k),
            forall|k: Seq<char>| #[trigger]
                cache@.contains_key(k) && !m0.contains_key(k) ==> full.deep_view().contains(k) && (
                exists|nm: String, c: String|
                    nm@ == k && c@ == cache@[k] && call_ensures(loader, (nm,), Option::Some(c))),
            forall|n: String| call_requires(loader, (n,)),
        decreases missing.len() - j,
    {
        proof {
            lemma_load_at_most_once(m0, full.deep_view());
        }
        let name = missing[j].clone();
        assert(name@ == missing.deep_view()[j as int]);
        let ghost nv = name@;
        let arg = name.clone();
        let ghost argv = arg;
        let res = loader(arg);
        let ghost resv = res;
        match res {
            Some(content) => {
                let ghost cv = content;
                proof {
                    assert(missing.deep_view().contains(nv));
                    assert(!m0.contains_key(nv));
                    assert(full.deep_view().contains(nv));
                    assert(resv == Option::Some(cv));
                    assert(call_ensures(loader, (argv,), Option::Some(cv)));
                }
                let ghost pre = cache@;
                cache.insert(name, content);
                proof {
                    assert(cache@ == pre.insert(nv, cv@));
                    assert forall|k: Seq<char>| m0.contains_key(k) implies cache@.contains_key(k)
                        && cache@[k] == m0[k] by {
                        assert(m0.contains_key(k));
                        assert(pre.contains_key(k) && pre[k] == m0[k]);
                        assert(k != nv);
                    }
                    assert forall|jj: int| 0 <= jj < j + 1 implies cache@.contains_key(
                        #[trigger] missing.deep_view()[jj],
                    ) by {
                        if jj < j {
                            assert(pre.contains_key(missing.deep_view()[jj]));
                        } else {
                            assert(missing.deep_view()[jj] == nv);
                        }
                    }
                    assert forall|k: Seq<char>| #[trigger]
                        cache@.contains_key(k) implies m0.contains_key(k) || (exists|jj: int|
                        0 <= jj < j + 1 && missing.deep_view()[jj] == k) by {
                        if k == nv {
                            assert(0 <= j < j + 1 && missing.deep_view()[j as int] == k);
                        } else {
                            assert(pre.contains_key(k));
                        }
                    }
                    assert forall|k: Seq<char>| #[trigger]
                        cache@.contains_key(k) && !m0.contains_key(k) implies full.deep_view().contains(
                        k,
                    ) && (exists|nm: String, c: String|
                        nm@ == k && c@ == cache@[k] && call_ensures(
                            loader,
                            (nm,),
                            Option::Some(c),
                        )) by {
                        if k == nv {
                            assert(argv@ == k && cv@ == cache@[k] && call_ensures(
                                loader,
                                (argv,),
                                Option::Some(cv),
                            ));
                        } else {
                            assert(pre.contains_key(k));
                            let (nm0, c0) = choose|nm0: String, c0: String|
                                nm0@ == k && c0@ == pre[k] && call_ensures(
                                    loader,
                                    (nm0,),
                                    Option::Some(c0),
                                );
                            assert(nm0@ == k && c0@ == cache@[k] && call_ensures(
                                loader,
                                (nm0,),
                                Option::Some(c0),
                            ));
                        }
                    }
                }
            },
            None => {
                proof {
                    assert(missing.deep_view().contains(nv));
                    assert(!m0.contains_key(nv));
                    assert(full.deep_view().contains(nv));
                    assert((mandatory_names() + declared.deep_view()).contains(nv));
                    assert(!cache@.contains_key(nv)) by {
                        if cache@.contains_key(nv) {
                            let jj = choose|jj: int|
                                0 <= jj < j && missing.deep_view()[jj] == nv;
                            assert(missing.deep_view()[jj] == missing.deep_view()[j as int]);
                        }
                    }
                    assert(argv@ == nv);
                    assert(call_ensures(loader, (argv,), Option::<String>::None));
                }
                return Err(name);
            },
        }
        j += 1;
    }
    assert forall|i: int| 0 <= i < full.deep_view().len() implies cache@.contains_key(
        #[trigger] full.deep_view()[i],
    ) by {
        lemma_load_at_most_once(m0, full.deep_view());
        let n = full.deep_view()[i];
        if !m0.contains_key(n) {
            assert(missing.deep_view().contains(n));
            let jj = choose|jj: int|
                0 <= jj < missing.deep_view().len() && missing.deep_view()[jj] == n;
            assert(cache@.contains_key(missing.deep_view()[jj]));
        }
    }
    match cache.resolve(&full) {
        Ok(cs) => {
            let prelude = concat_contents(&cs);
            proof {
                let full_v = full.deep_view();
                let mapped = full_v.map_values(|n: Seq<char>| cache@[n]);
                assert(cs.deep_view() =~= mapped);
            }
            Ok(prelude)
        },
        Err(n) => {
            proof {
                let full_v = full.deep_view();
                let i = choose|i: int|
                    0 <= i < full_v.len() && full_v[i] == n@ && (forall|jj: int|
                        0 <= jj < i ==> cache@.contains_key(full_v[jj]));
                assert(cache@.contains_key(full_v[i]));
                assert(false);
            }
            Err(n)
        },
    }
}

/// Assemble the final program — the resolved prelude first, the file's own
/// text last — execute it, and tally the verdict. Every call executes and
/// tallies exactly one program.
pub fn generate_and_run<E: Fn(String) -> ExecOutcome>(
    diag: &mut Diagnostics,
    include_contents: String,
    text: &String,
    exec: E,
) -> (r: FileOutcome)
    requires
        forall|p: String| call_requires(exec, (p,)),
        old(diag).wf(),
        old(diag).total_files < u32::MAX,
    ensures
        final(diag).wf(),
        tallied(*old(diag), *final(diag), r),
        r is Executed,
        r matches FileOutcome::Executed(v) ==> exists|prog: String|
            #[trigger] call_ensures(exec, (prog,), v) && prog@ == include_contents@ + text@,
{
    let program = generate_final_file_to_test(include_contents, text.as_str());
    let ghost p = program;
    let v = exec(program);
    proof {
        assert(call_ensures(exec, (p,), v));
    }
    let out = FileOutcome::Executed(v);
    diag.record(&out);
    out
}

/// Run one file's whole pipeline against the shared cache: scan its text for
/// the metadata block, read the declared snippet names, resolve and load the
/// snippets, assemble the program, execute it, and tally the outcome. The
/// classification is exact: a missing block, an unreadable block and a
/// refused interior each force their skip; a readable, accepted interior
/// leads to execution of exactly the assembled program, or to a
/// missing-snippet skip naming a requested name whose load failed.
pub fn process_file<L: Fn(String) -> Option<String>, E: Fn(String) -> ExecOutcome>(
    cache: &mut IncludeCache,
    diag: &mut Diagnostics,
    text: &String,
    loader: L,
    exec: E,
) -> (r: FileOutcome)
    requires
        forall|n: String| call_requires(loader, (n,)),
        forall|p: String| call_requires(exec, (p,)),
        old(diag).wf(),
        old(diag).total_files < u32::MAX,
    ensures
        final(diag).wf(),
        tallied(*old(diag), *final(diag), r),
        forall|k: Seq<char>| #[trigger]
            old(cache)@.contains_key(k) ==> final(cache)@.contains_key(k) && final(cache)@[k]
                == old(cache)@[k],
        forall|k: Seq<char>| #[trigger]
            final(cache)@.contains_key(k) && !old(cache)@.contains_key(k) ==> exists|
                nm: String,
                c: String,
            |
                nm@ == k && c@ == final(cache)@[k] && call_ensures(loader, (nm,), Option::Some(c)),
        no_block(text@) ==> final(cache)@ == old(cache)@,
        malformed_block(text@) ==> final(cache)@ == old(cache)@,
        (r == FileOutcome::Skipped(SkipReason::NoMetadata)) <==> no_block(text@),
        (r == FileOutcome::Skipped(SkipReason::MalformedMetadata)) <==> malformed_block(text@),
        (r matches FileOutcome::Skipped(SkipReason::MetadataParseError(_))) <==> good_block(text@)
            && declared_of(block_interior(text@)) is None,
        good_block(text@) && declared_of(block_interior(text@)) is None ==> final(cache)@ == old(
            cache,
        )@,
        good_block(text@) && declared_of(block_interior(text@)) is Some ==> (r is Executed || (
        r matches FileOutcome::Skipped(SkipReason::MissingInclude(_)))),
        r matches FileOutcome::Skipped(SkipReason::MissingInclude(n)) ==> good_block(text@) && (
        declared_of(block_interior(text@)) matches Some(names) && (mandatory_names()
            + names).contains(n@)) && !final(cache)@.contains_key(n@) && (exists|nm: String|
            nm@ == n@ && call_ensures(loader, (nm,), Option::<String>::None)),
        r matches FileOutcome::Executed(v) ==> good_block(text@) && (declared_of(
            block_interior(text@),
        ) matches Some(names) && (forall|i: int|
            0 <= i < (mandatory_names() + names).len() ==> final(cache)@.contains_key(
                #[trigger] (mandatory_names() + names)[i],
            )) && (exists|prog: String|
            #[trigger] call_ensures(exec, (prog,), v) && prog@ == resolved_prelude(
                final(cache)@,
                mandatory_names() + names,
            ) + text@)),
        (forall|nm: String, o: Option<String>| call_ensures(loader, (nm,), o) ==> o is Some) ==> !(
        r matches FileOutcome::Skipped(SkipReason::MissingInclude(_))),
{
    let fm = extract_frontmatter(text.as_str());
    match fm {
        Frontmatter::NoMetadata => {
            let out = FileOutcome::Skipped(SkipReason::NoMetadata);
            diag.record(&out);
            out
        },
        Frontmatter::Malformed => {
            let out = FileOutcome::Skipped(SkipReason::MalformedMetadata);
            diag.record(&out);
            out
        },
        Frontmatter::Block(interior) => {
            match declared_includes(interior.as_str()) {
                Err(msg) => {
                    let out = FileOutcome::Skipped(SkipReason::MetadataParseError(msg));
                    diag.record(&out);
                    out
                },
                Ok(declared) => {
                    match get_contents(cache, &declared, loader) {
                        Err(n) => {
                            let out = FileOutcome::Skipped(SkipReason::MissingInclude(n));
                            diag.record(&out);
                            out
                        },
                        Ok(prelude) => {
                            let ghost prelude_v = prelude@;
                            let out = generate_and_run(diag, prelude, text, exec);
                            proof {
                                let v = choose|v: ExecOutcome| out == FileOutcome::Executed(v);
                                let prog = choose|prog: String|
                                    call_ensures(exec, (prog,), v) && prog@ == prelude_v + text@;
                                assert(call_ensures(exec, (prog,), v) && prog@ == resolved_prelude(
                                    cache@,
                                    mandatory_names() + declared.deep_view(),
                                ) + text@);
                            }
                            out
                        },
                    }
                },
            }
        },
    }
}

/// One full run: every offered file's pipeline, against one shared cache,
/// each outcome tallied exactly once. The result pairs the final counters
/// with each file's outcome, in offer order: the counters are exactly the
/// tallies of those outcomes — so `passed + failed == run` and `run + invalid
/// == total_files`, with `total_files` the number of offered files — and each
/// outcome classifies its own file's text, never another file's.
pub fn run_all<L, E>(texts: &Vec<String>, cache: &mut IncludeCache, loader: L, exec: E) -> (res: (
    Diagnostics,
    Vec<FileOutcome>,
)) where
    L: Fn(String) -> Option<String> + Copy,
    E: Fn(String) -> ExecOutcome + Copy,

    requires
        texts@.len() < u32::MAX,
        forall|n: String| call_requires(loader, (n,)),
        forall|p: String| call_requires(exec, (p,)),
    ensures
        res.0.wf(),
        res.1@.len() == texts@.len(),
        res.0.total_files == texts@.len(),
        res.0.passed == passed_count(res.1@),
        res.0.failed == failed_count(res.1@),
        res.0.run == run_count(res.1@),
        res.0.invalid == invalid_count(res.1@),
        forall|k: Seq<char>| #[trigger]
            old(cache)@.contains_key(k) ==> final(cache)@.contains_key(k) && final(cache)@[k]
                == old(cache)@[k],
        forall|k: Seq<char>| #[trigger]
            final(cache)@.contains_key(k) && !old(cache)@.contains_key(k) ==> exists|
                nm: String,
                c: String,
            |
                nm@ == k && c@ == final(cache)@[k] && call_ensures(loader, (nm,), Option::Some(c)),
        forall|i: int|
            0 <= i < texts@.len() ==> (((#[trigger] res.1@[i]) == FileOutcome::Skipped(
                SkipReason::NoMetadata,
            )) <==> no_block(texts@[i]@)),
        forall|i: int|
            0 <= i < texts@.len() ==> (((#[trigger] res.1@[i]) == FileOutcome::Skipped(
                SkipReason::MalformedMetadata,
            )) <==> malformed_block(texts@[i]@)),
        forall|i: int|
            0 <= i < texts@.len() ==> (((#[trigger] res.1@[i]) matches FileOutcome::Skipped(
                SkipReason::MetadataParseError(_),
            )) <==> good_block(texts@[i]@) && declared_of(block_interior(texts@[i]@)) is None),
        forall|i: int|
            0 <= i < texts@.len() && good_block(texts@[i]@) && declared_of(
                block_interior(texts@[i]@),
            ) is Some ==> ((#[trigger] res.1@[i]) is Executed || (res.1@[i] matches
            FileOutcome::Skipped(SkipReason::MissingInclude(_)))),
        (forall|nm: String, o: Option<String>| call_ensures(loader, (nm,), o) ==> o is Some)
            ==> forall|i: int|
            0 <= i < texts@.len() ==> !((#[trigger] res.1@[i]) matches FileOutcome::Skipped(
                SkipReason::MissingInclude(_),
            )),
{
    let mut diag = Diagnostics::new();
    let mut outs: Vec<FileOutcome> = Vec::new();
    let mut i: usize = 0;
    while i < texts.len()
        invariant
            i <= texts.len(),
            texts@.len() < u32::MAX,
            outs@.len() == i,
            diag.wf(),
            diag.total_files == i,
            diag.passed == passed_count(outs@),
            diag.failed == failed_count(outs@),
            diag.run == run_count(outs@),
            diag.invalid == invalid_count(outs@),
            forall|k: Seq<char>| #[trigger]
                old(cache)@.contains_key(k) ==> cache@.contains_key(k) && cache@[k] == old(
                    cache,
                )@[k],
            forall|k: Seq<char>| #[trigger]
                cache@.contains_key(k) && !old(cache)@.contains_key(k) ==> exists|
                    nm: String,
                    c: String,
                | nm@ == k && c@ == cache@[k] && call_ensures(loader, (nm,), Option::Some(c)),
            forall|j: int|
                0 <= j < i ==> (((#[trigger] outs@[j]) == FileOutcome::Skipped(
                    SkipReason::NoMetadata,
                )) <==> no_block(texts@[j]@)),
            forall|j: int|
                0 <= j < i ==> (((#[trigger] outs@[j]) == FileOutcome::Skipped(
                    SkipReason::MalformedMetadata,
                )) <==> malformed_block(texts@[j]@)),
            forall|j: int|
                0 <= j < i ==> (((#[trigger] outs@[j]) matches FileOutcome::Skipped(
                    SkipReason::MetadataParseError(_),
                )) <==> good_block(texts@[j]@) && declared_of(block_interior(texts@[j]@)) is None),
            forall|j: int|
                0 <= j < i && good_block(texts@[j]@) && declared_of(
                    block_interior(texts@[j]@),
                ) is Some ==> ((#[trigger] outs@[j]) is Executed || (outs@[j] matches
                FileOutcome::Skipped(SkipReason::MissingInclude(_)))),
            forall|j: int|
                0 <= j < i && ((#[trigger] outs@[j]) matches FileOutcome::Skipped(
                    SkipReason::MissingInclude(_),
                )) ==> exists|nm: String| call_ensures(loader, (nm,), Option::<String>::None),
            forall|n: String| call_requires(loader, (n,)),
            forall|p: String| call_requires(exec, (p,)),
        decreases texts.len() - i,
    {
        let ghost pre_cache = cache@;
        let outcome = process_file(cache, &mut diag, &texts[i], loader, exec);
        let ghost oc = outcome;
        let ghost prev = outs@;
        outs.push(outcome);
        proof {
            assert(outs@.drop_last() =~= prev);
            assert(outs@.last() == oc);
            assert(passed_count(outs@) == passed_count(prev) + (if is_pass(oc) {
                1int
            } else {
                0
            }));
            assert(failed_count(outs@) == failed_count(prev) + (if is_fail(oc) {
                1int
            } else {
                0
            }));
            assert(run_count(outs@) == run_count(prev) + (if is_run(oc) {
                1int
            } else {
                0
            }));
            assert(invalid_count(outs@) == invalid_count(prev) + (if is_invalid(oc) {
                1int
            } else {
                0
            }));
            assert forall|k: Seq<char>| #[trigger]
                cache@.contains_key(k) && !old(cache)@.contains_key(k) implies exists|
                nm: String,
                c: String,
            | nm@ == k && c@ == cache@[k] && call_ensures(loader, (nm,), Option::Some(c)) by {
                if pre_cache.contains_key(k) {
                    let (nm0, c0) = choose|nm0: String, c0: String|
                        nm0@ == k && c0@ == pre_cache[k] && call_ensures(
                            loader,
                            (nm0,),
                            Option::Some(c0),
                        );
                    assert(nm0@ == k && c0@ == cache@[k] && call_ensures(
                        loader,
                        (nm0,),
                        Option::Some(c0),
                    ));
                } else {
                    let (nm0, c0) = choose|nm0: String, c0: String|
                        nm0@ == k && c0@ == cache@[k] && call_ensures(
                            loader,
                            (nm0,),
                            Option::Some(c0),
                        );
                    assert(nm0@ == k && c0@ == cache@[k] && call_ensures(
                        loader,
                        (nm0,),
                        Option::Some(c0),
                    ));
                }
            }
        }
        i += 1;
    }
    (diag, outs)
}

} // verus!
