//! Which settings are used, and which are refused.
use crate::config;
use crate::config::{
    AppConfig, ConfigError, FourChanBoardSource, LocalDirectorySource, RootProbe, RuntimeConfig,
    SourceConfig, UpstreamSource,
};
use crate::digest;
use crate::laws::order;
use crate::scalar::Scalar;
use vstd::prelude::*;

verus! {

/// Shares are held between 0 and 1, the smallest side of a face between 24 and 256, and the likeness of
/// subjects between -1 and 1; within these bounds they stay as they are, and what is not finite is
/// replaced.
pub proof fn numbers_are_held_within_bounds(x: Scalar, fallback: u32)
    ensures
        ({
            let (zero, one) = (Scalar { bits: 0 }, Scalar { bits: 0x3f80_0000 });
            let r = config::bounded_probability(x, fallback);
            &&& !x.finite() ==> r.bits == fallback
            &&& x.finite() && x.order() < zero.order() ==> r == zero
            &&& x.finite() && x.order() > one.order() ==> r == one
            &&& x.finite() && zero.order() <= x.order() <= one.order() ==> r == x
        }),
        ({
            let (low, high) = (Scalar { bits: 0x41c0_0000 }, Scalar { bits: 0x4380_0000 });
            let r = config::bounded_face_side(x);
            &&& !x.finite() ==> r.bits == 0x42a0_0000
            &&& x.finite() && x.order() < low.order() ==> r == low
            &&& x.finite() && x.order() > high.order() ==> r == high
            &&& x.finite() && low.order() <= x.order() <= high.order() ==> r == x
        }),
        ({
            let (low, high) = (Scalar { bits: 0xbf80_0000 }, Scalar { bits: 0x3f80_0000 });
            let r = config::bounded_threshold(x);
            &&& !x.finite() ==> r.bits == 0x3eb3_3333
            &&& x.finite() && x.order() < low.order() ==> r == low
            &&& x.finite() && x.order() > high.order() ==> r == high
            &&& x.finite() && low.order() <= x.order() <= high.order() ==> r == x
        }),
{
    order::bounds_hold_what_is_outside(
        x,
        Scalar { bits: 0 },
        Scalar { bits: 0x3f80_0000 },
        Scalar { bits: fallback },
    );
}

/// A weight stays where it is finite and not negative, and is one where it is not.
pub proof fn weights_are_not_negative(weight: Scalar)
    ensures
        weight.finite() && !weight.below(Scalar { bits: 0 }) ==> config::weight_or_default(weight)
            == weight,
        !weight.finite() || weight.below(Scalar { bits: 0 }) ==> config::weight_or_default(weight)
            == (Scalar { bits: 0x3f80_0000 }),
{
}

/// A board is accepted where its name is made of letters and digits of ASCII, at least one, and it asks
/// for no videos; the name is complained about first.
pub proof fn boards_are_named_by_letters_and_digits(source: FourChanBoardSource)
    ensures
        ({
            let r = source.spec_validate();
            let named = source.board@.len() > 0 && forall|i: int|
                0 <= i < source.board@.len() ==> {
                    let c = #[trigger] source.board@[i];
                    ('0' <= c && c <= '9') || ('A' <= c && c <= 'Z') || ('a' <= c && c <= 'z')
                };
            &&& r is Ok <==> named && !source.content.allow_video
            &&& !named ==> r == Err::<(), ConfigError>(
                ConfigError::InvalidBoard { board: source.board },
            )
            &&& named && source.content.allow_video ==> r == Err::<(), ConfigError>(
                ConfigError::VideoUpstream,
            )
        }),
{
    let named = source.board@.len() > 0 && forall|i: int|
        0 <= i < source.board@.len() ==> {
            let c = #[trigger] source.board@[i];
            ('0' <= c && c <= '9') || ('A' <= c && c <= 'Z') || ('a' <= c && c <= 'z')
        };
    if named {
        assert forall|i: int| 0 <= i < source.board@.len() implies config::is_alphanumeric(
            #[trigger] source.board@[i],
        ) by {}
    }
    if config::is_board(source.board@) {
        assert forall|i: int| 0 <= i < source.board@.len() implies {
            let c = #[trigger] source.board@[i];
            ('0' <= c && c <= '9') || ('A' <= c && c <= 'Z') || ('a' <= c && c <= 'z')
        } by {
            assert(config::is_alphanumeric(source.board@[i]));
        }
    }
}

/// A directory is accepted where its path is not empty and leads to a directory; what is wrong is said
/// in this order.
pub proof fn directories_have_to_be_there(source: LocalDirectorySource, probe: RootProbe)
    ensures
        ({
            let r = source.spec_validate(probe);
            &&& r is Ok <==> source.root@.len() > 0 && probe.exists && probe.is_dir
            &&& source.root@.len() == 0 ==> r == Err::<(), ConfigError>(ConfigError::EmptySourceRoot)
            &&& source.root@.len() > 0 && !probe.exists ==> r == Err::<(), ConfigError>(
                ConfigError::SourceRootMissing { root: source.root },
            )
            &&& source.root@.len() > 0 && probe.exists && !probe.is_dir ==> r == Err::<(), ConfigError>(
                ConfigError::SourceRootNotDirectory { root: source.root },
            )
        }),
{
}

/// A source is accepted where its weight is finite and not negative and what it reads from is accepted;
/// the weight is complained about first.
pub proof fn sources_are_accepted_as_a_whole(source: SourceConfig, probe: RootProbe)
    ensures
        ({
            let r = source.spec_validate(probe);
            let weighed = source.weight.finite() && !source.weight.below(Scalar { bits: 0 });
            &&& !weighed ==> r == Err::<(), ConfigError>(
                ConfigError::InvalidSourceWeight { weight: source.weight },
            )
            &&& weighed ==> r == match source.upstream {
                UpstreamSource::FourChanBoard(board) => board.spec_validate(),
                UpstreamSource::LocalDirectory(directory) => directory.spec_validate(probe),
            }
        }),
{
}

proof fn lemma_first_refusal(sources: Seq<SourceConfig>, probes: Seq<RootProbe>, from: int, at: int)
    requires
        0 <= from <= at <= sources.len(),
        forall|i: int|
            from <= i < at ==> (#[trigger] sources[i]).spec_validate(config::probe_at(probes, i)) is Ok,
        at < sources.len() ==> sources[at].spec_validate(config::probe_at(probes, at)) is Err,
    ensures
        config::first_refusal(sources, probes, from) == if at < sources.len() {
            sources[at].spec_validate(config::probe_at(probes, at))
        } else {
            Ok(())
        },
    decreases at - from,
{
    if from < at {
        assert(sources[from].spec_validate(config::probe_at(probes, from)) is Ok);
        lemma_first_refusal(sources, probes, from + 1, at);
    }
}

/// Settings are refused for the address first, then for an empty path of the collection, then for the
/// first source that is refused; and accepted where there is none.
pub proof fn settings_are_refused_for_the_first_fault(
    settings: AppConfig,
    bind_addr_parses: bool,
    probes: Seq<RootProbe>,
    at: int,
)
    requires
        0 <= at <= settings.sources@.len(),
        forall|i: int|
            0 <= i < at ==> (#[trigger] settings.sources@[i]).spec_validate(config::probe_at(probes, i))
                is Ok,
        at < settings.sources@.len() ==> settings.sources@[at].spec_validate(
            config::probe_at(probes, at),
        ) is Err,
    ensures
        ({
            let r = settings.spec_validate(bind_addr_parses, probes);
            let blank = settings.runtime.corpus_root is Some && settings.runtime.corpus_root->0@.len()
                == 0;
            &&& !bind_addr_parses ==> r == Err::<(), ConfigError>(
                ConfigError::InvalidBindAddr { bind_addr: settings.runtime.bind_addr },
            )
            &&& bind_addr_parses && blank ==> r == Err::<(), ConfigError>(ConfigError::EmptyCorpusRoot)
            &&& bind_addr_parses && !blank && at < settings.sources@.len() ==> r
                == settings.sources@[at].spec_validate(config::probe_at(probes, at))
            &&& r is Ok <==> bind_addr_parses && !blank && at == settings.sources@.len()
        }),
{
    lemma_first_refusal(settings.sources@, probes, 0, at);
}

/// Each source is judged by what the file system says of it, and one of which nothing is said counts as
/// missing.
pub proof fn sources_are_judged_by_their_own_probe(probes: Seq<RootProbe>, i: int)
    requires
        0 <= i,
    ensures
        i < probes.len() ==> config::probe_at(probes, i) == probes[i],
        i >= probes.len() ==> !config::probe_at(probes, i).exists,
{
}

/// Boards are known by their names, and no board is taken for a directory.
pub proof fn boards_are_known_by_their_names(a: FourChanBoardSource, b: UpstreamSource)
    ensures
        UpstreamSource::FourChanBoard(a).key() == b.key() <==> match b {
            UpstreamSource::FourChanBoard(other) => a.board@ == other.board@,
            UpstreamSource::LocalDirectory(_) => false,
        },
{
    reveal_strlit("4chan:");
    reveal_strlit("local:");
    let x = UpstreamSource::FourChanBoard(a).key();
    let y = b.key();
    match b {
        UpstreamSource::FourChanBoard(other) => {
            if x == y {
                assert(x.skip(6) =~= a.board@);
                assert(y.skip(6) =~= other.board@);
            }
        },
        UpstreamSource::LocalDirectory(directory) => {
            assert(x[0] == '4');
            assert(y[0] == 'l');
        },
    }
}

/// In their usual form settings keep the path of the collection and every source in its place, with all
/// that is not put in order: policies, intervals and limits. Boards are in lower case, and directories
/// have their canonical path where there is one.
pub proof fn usual_settings_keep_what_was_set(
    after: AppConfig,
    before: AppConfig,
    canonical: Seq<Option<String>>,
    i: int,
)
    requires
        config::normalized_from(after, before, canonical),
        0 <= i < before.sources@.len(),
    ensures
        after.runtime.corpus_root == before.runtime.corpus_root,
        after.sources@.len() == before.sources@.len(),
        after.sources@[i].weight == config::weight_or_default(before.sources@[i].weight),
        after.sources@[i].import_policy == before.sources@[i].import_policy,
        after.sources@[i].scan_interval_seconds == before.sources@[i].scan_interval_seconds,
        match (before.sources@[i].upstream, after.sources@[i].upstream) {
            (UpstreamSource::FourChanBoard(b), UpstreamSource::FourChanBoard(a)) => a.board@
                == config::lowered(b.board@) && a.content == b.content && a.harvest == b.harvest
                && a.filters == b.filters,
            (UpstreamSource::LocalDirectory(b), UpstreamSource::LocalDirectory(a)) => a.root@ == (if i
                < canonical.len() && canonical[i] is Some {
                canonical[i]->0@
            } else {
                b.root@
            }) && a.recurse == b.recurse && a.filters == b.filters,
            _ => false,
        },
{
    assert(SourceConfig::normalized_from(
        after.sources@[i],
        before.sources@[i],
        config::canonical_at(canonical, i),
    ));
}

/// In their usual form the numbers of settings are bounded, each by its own bounds, and where there is no
/// source there is the usual one.
pub proof fn usual_settings_are_bounded(
    after: AppConfig,
    before: AppConfig,
    canonical: Seq<Option<String>>,
)
    requires
        config::normalized_from(after, before, canonical),
    ensures
        after.arena.external_probability == config::bounded_probability(
            before.arena.external_probability,
            0x3dcc_cccd,
        ),
        after.arena.explore == config::bounded_probability(before.arena.explore, 0x3eb3_3333),
        after.arena.dedup_radius == config::bounded_probability(before.arena.dedup_radius, 0x3eb3_3333),
        after.facemash.min_face_side == config::bounded_face_side(before.facemash.min_face_side),
        after.identities.match_threshold == config::bounded_threshold(before.identities.match_threshold),
        before.sources@.len() == 0 ==> {
            &&& after.sources@.len() == 1
            &&& after.sources@[0].weight.bits == 0x3f80_0000
            &&& after.sources@[0].import_policy is NotX
            &&& after.sources@[0].scan_interval_seconds == 120
            &&& match after.sources@[0].upstream {
                UpstreamSource::FourChanBoard(board) => board.board@ == "s"@ && board.content.allow_nsfw
                    && !board.content.allow_video && board.harvest.catalog_threads == 0
                    && board.harvest.thread_fetches_per_scan == 0 && board.filters.min_shortest_edge
                    == 800 && board.filters.max_download_bytes == 8_388_608,
                UpstreamSource::LocalDirectory(_) => false,
            }
        },
{
}

/// While the application runs, its address and its collection stay unless the settings name the same.
pub proof fn address_and_collection_are_compared_by_text(a: RuntimeConfig, b: RuntimeConfig)
    ensures
        config::keeps_runtime(a, b) <==> {
            &&& a.bind_addr@ == b.bind_addr@
            &&& a.corpus_root is Some <==> b.corpus_root is Some
            &&& a.corpus_root is Some ==> a.corpus_root->0@ == b.corpus_root->0@
        },
        config::keeps_runtime(a, b) == config::keeps_runtime(b, a),
{
}

/// Settings that are taken in are in their usual form and are not refused, and come with the fingerprint
/// of their text; where none are, their usual form is refused for the reason that is given.
pub proof fn only_accepted_settings_are_taken_in(
    r: Result<(AppConfig, String), ConfigError>,
    parsed: AppConfig,
    raw: Seq<u8>,
    canonical: Seq<Option<String>>,
    bind_addr_parses: bool,
    probes: Seq<RootProbe>,
)
    requires
        config::taken_in(r, parsed, raw, canonical, bind_addr_parses, probes),
    ensures
        match r {
            Ok((settings, fingerprint)) => {
                &&& config::normalized_from(settings, parsed, canonical)
                &&& settings.spec_validate(bind_addr_parses, probes) is Ok
                &&& fingerprint@ == digest::text_digest(raw)
            },
            Err(error) => exists|usual: AppConfig| #[trigger]
                config::normalized_from(usual, parsed, canonical) && usual.spec_validate(
                    bind_addr_parses,
                    probes,
                ) == Err::<(), ConfigError>(error),
        },
{
}

} // verus!
