//! Scrape requests are divided among the swarm workers, and the answers of the
//! workers are put together again.

use vstd::prelude::*;

use crate::common::{ChannelResponse, RequestId};
use crate::config::Config;
use crate::connection::{ConnectionError, ConnectionErrorView};
use crate::files::{
    ascending, by_hash, nothing_is_found_in_no_entries, statistics_determine_entries, ScrapeFiles,
    ScrapeStatistics,
};
use crate::protocol::{hash_views, InfoHash, ScrapeRequest};
use crate::response::{AnnounceResponse, Response, ResponseView, ScrapeResponse};

verus! {

/// The swarm worker, out of `workers`, that a torrent belongs to.
pub open spec fn consumer_index(workers: usize, hash: Seq<u8>) -> int {
    hash[0] as int % workers as int
}

/// The swarm worker that a torrent belongs to.
pub fn calculate_request_consumer_index(config: &Config, info_hash: InfoHash) -> (index: usize)
    requires
        config.swarm_workers > 0,
    ensures
        index == consumer_index(config.swarm_workers, info_hash@),
        index < config.swarm_workers,
{
    let first = info_hash.0[0] as usize;
    first % config.swarm_workers
}

/// The part of a scrape request that one swarm worker answers.
#[derive(Clone, Debug, PartialEq, Eq)]
pub struct ScrapePart {
    pub consumer_index: usize,
    pub request: ScrapeRequest,
}

/// What a [`ScrapePart`] stands for.
pub struct ScrapePartView {
    pub consumer_index: int,
    pub hashes: Seq<Seq<u8>>,
}

impl View for ScrapePart {
    type V = ScrapePartView;

    open spec fn view(&self) -> ScrapePartView {
        ScrapePartView { consumer_index: self.consumer_index as int, hashes: self.request@ }
    }
}

/// What a list of parts stands for.
pub open spec fn part_views(parts: Seq<ScrapePart>) -> Seq<ScrapePartView> {
    parts.map_values(|part: ScrapePart| part@)
}

/// The torrents among `hashes` that belong to one worker, in their order.
pub open spec fn hashes_of(workers: usize, hashes: Seq<Seq<u8>>, index: int) -> Seq<Seq<u8>> {
    hashes.filter(|hash: Seq<u8>| consumer_index(workers, hash) == index)
}

/// Whether `parts` are the parts, in the order of the workers, that the workers
/// below `bound` have in a request for `hashes`. Workers without a torrent have
/// no part.
pub open spec fn is_division(
    workers: usize,
    hashes: Seq<Seq<u8>>,
    parts: Seq<ScrapePartView>,
    bound: int,
) -> bool {
    &&& forall|i: int, j: int|
        0 <= i < j < parts.len() ==> (#[trigger] parts[i]).consumer_index < (
        #[trigger] parts[j]).consumer_index
    &&& forall|i: int|
        0 <= i < parts.len() ==> {
            &&& 0 <= (#[trigger] parts[i]).consumer_index < bound
            &&& parts[i].hashes == hashes_of(workers, hashes, parts[i].consumer_index)
            &&& parts[i].hashes.len() > 0
        }
    &&& forall|index: int|
        0 <= index < bound && (#[trigger] hashes_of(workers, hashes, index)).len() > 0 ==> exists|
            i: int,
        |
            0 <= i < parts.len() && (#[trigger] parts[i]).consumer_index == index
}

fn collect_hashes(hashes: &Vec<InfoHash>, config: &Config, index: usize) -> (kept: Vec<InfoHash>)
    requires
        config.swarm_workers > 0,
    ensures
        hash_views(kept@) == hashes_of(config.swarm_workers, hash_views(hashes@), index as int),
{
    let ghost views = hash_views(hashes@);
    let ghost belongs = |hash: Seq<u8>|
        consumer_index(config.swarm_workers, hash) == index as int;
    let mut kept: Vec<InfoHash> = Vec::new();
    let mut i: usize = 0;
    proof {
        reveal(Seq::filter);
        assert(hash_views(kept@) == views.take(0).filter(belongs));
    }
    while i < hashes.len()
        invariant
            config.swarm_workers > 0,
            views == hash_views(hashes@),
            belongs == |hash: Seq<u8>|
                consumer_index(config.swarm_workers, hash) == index as int,
            i <= hashes.len(),
            hash_views(kept@) == views.take(i as int).filter(belongs),
        decreases hashes.len() - i,
    {
        let hash = hashes[i];
        let ghost before = hash_views(kept@);
        proof {
            reveal(Seq::filter);
            assert(views[i as int] == hash@);
            assert(views.take(i + 1).drop_last() == views.take(i as int));
            assert(views.take(i + 1).last() == hash@);
        }
        if calculate_request_consumer_index(config, hash) == index {
            kept.push(hash);
            assert(hash_views(kept@) == before.push(hash@));
        }
        i = i + 1;
    }
    assert(views.take(i as int) == views);
    kept
}

/// Divides a scrape request among the swarm workers. A request for no torrent has no
/// parts, and needs no worker.
pub fn divide_scrape_request(config: &Config, request: &ScrapeRequest) -> (parts: Vec<ScrapePart>)
    requires
        request@.len() > 0 ==> config.swarm_workers > 0,
    ensures
        is_division(
            config.swarm_workers,
            request@,
            part_views(parts@),
            config.swarm_workers as int,
        ),
{
    let mut parts: Vec<ScrapePart> = Vec::new();
    let bound: usize = if config.swarm_workers < 256 {
        config.swarm_workers
    } else {
        256
    };
    let mut index: usize = 0;
    while index < bound
        invariant
            index <= bound <= config.swarm_workers,
            is_division(config.swarm_workers, request@, part_views(parts@), index as int),
        decreases bound - index,
    {
        let info_hashes = collect_hashes(&request.info_hashes, config, index);
        let ghost before = part_views(parts@);
        if info_hashes.len() > 0 {
            let part = ScrapePart {
                consumer_index: index,
                request: ScrapeRequest { info_hashes },
            };
            parts.push(part);
            proof {
                let after = part_views(parts@);
                assert(after == before.push(part@));
                assert forall|other: int|
                    0 <= other < index + 1 && (#[trigger] hashes_of(
                        config.swarm_workers,
                        request@,
                        other,
                    )).len() > 0 implies exists|i: int|
                    0 <= i < after.len() && (#[trigger] after[i]).consumer_index == other by {
                    if other < index {
                        let i = choose|i: int|
                            0 <= i < before.len() && (#[trigger] before[i]).consumer_index == other;
                        assert(after[i] == before[i]);
                    } else {
                        assert(after[before.len() as int].consumer_index == other);
                    }
                }
            }
        }
        index = index + 1;
    }
    proof {
        let views = part_views(parts@);
        assert forall|other: int|
            0 <= other < config.swarm_workers && (#[trigger] hashes_of(
                config.swarm_workers,
                request@,
                other,
            )).len() > 0 implies exists|i: int|
            0 <= i < views.len() && (#[trigger] views[i]).consumer_index == other by {
            let belongs = |hash: Seq<u8>| consumer_index(config.swarm_workers, hash) == other;
            let kept = request@.filter(belongs);
            request@.lemma_filter_pred(belongs, 0);
            let first = kept[0][0] as int;
            assert(first % config.swarm_workers as int <= first) by (nonlinear_arith)
                requires
                    first >= 0,
                    config.swarm_workers > 0,
            ;
        }
    }
    parts
}

/// Each torrent that is asked for is in exactly one part, that of the worker it
/// belongs to.
pub proof fn each_torrent_is_in_one_part(
    workers: usize,
    hashes: Seq<Seq<u8>>,
    parts: Seq<ScrapePartView>,
    k: int,
)
    requires
        workers > 0,
        is_division(workers, hashes, parts, workers as int),
        0 <= k < hashes.len(),
    ensures
        exists|i: int|
            0 <= i < parts.len() && (#[trigger] parts[i]).hashes.contains(hashes[k]),
        forall|i: int|
            0 <= i < parts.len() && (#[trigger] parts[i]).hashes.contains(hashes[k])
                ==> parts[i].consumer_index == consumer_index(workers, hashes[k]),
        forall|i: int, j: int|
            0 <= i < parts.len() && 0 <= j < parts.len() && (#[trigger] parts[i]).hashes.contains(
                hashes[k],
            ) && (#[trigger] parts[j]).hashes.contains(hashes[k]) ==> i == j,
{
    let index = consumer_index(workers, hashes[k]);
    let belongs = |hash: Seq<u8>| consumer_index(workers, hash) == index;
    hashes.lemma_filter_contains(belongs, k);
    assert(hashes_of(workers, hashes, index).contains(hashes[k]));
    let m = choose|i: int| 0 <= i < parts.len() && (#[trigger] parts[i]).consumer_index == index;
    assert(parts[m].hashes.contains(hashes[k]));
    assert forall|i: int|
        0 <= i < parts.len() && (#[trigger] parts[i]).hashes.contains(
            hashes[k],
        ) implies parts[i].consumer_index == index by {
        lemma_part_holds_own_torrents(workers, hashes, parts, i, hashes[k]);
    }
}

proof fn lemma_part_holds_own_torrents(
    workers: usize,
    hashes: Seq<Seq<u8>>,
    parts: Seq<ScrapePartView>,
    i: int,
    hash: Seq<u8>,
)
    requires
        is_division(workers, hashes, parts, workers as int),
        0 <= i < parts.len(),
        parts[i].hashes.contains(hash),
    ensures
        parts[i].consumer_index == consumer_index(workers, hash),
{
    let index = parts[i].consumer_index;
    let belongs = |hash: Seq<u8>| consumer_index(workers, hash) == index;
    let kept = hashes.filter(belongs);
    let n = choose|n: int| 0 <= n < kept.len() && kept[n] == hash;
    hashes.lemma_filter_pred(belongs, n);
}

proof fn lemma_filter_keeps_counts(
    hashes: Seq<Seq<u8>>,
    belongs: spec_fn(Seq<u8>) -> bool,
    hash: Seq<u8>,
)
    requires
        belongs(hash),
    ensures
        hashes.filter(belongs).to_multiset().count(hash) == hashes.to_multiset().count(hash),
    decreases hashes.len(),
{
    broadcast use vstd::seq_lib::group_to_multiset_ensures;

    reveal(Seq::filter);
    if hashes.len() > 0 {
        lemma_filter_keeps_counts(hashes.drop_last(), belongs, hash);
        assert(hashes == hashes.drop_last().push(hashes.last()));
    }
}

/// A part holds only torrents that were asked for, each as often as it was asked for,
/// and they belong by their first byte to the worker that the part is for.
pub proof fn part_holds_what_was_asked_for(
    workers: usize,
    hashes: Seq<Seq<u8>>,
    parts: Seq<ScrapePartView>,
    i: int,
    hash: Seq<u8>,
)
    requires
        is_division(workers, hashes, parts, workers as int),
        0 <= i < parts.len(),
        parts[i].hashes.contains(hash),
    ensures
        hashes.contains(hash),
        parts[i].consumer_index == hash[0] as int % workers as int,
        parts[i].hashes.to_multiset().count(hash) == hashes.to_multiset().count(hash),
{
    broadcast use vstd::seq_lib::group_to_multiset_ensures;

    lemma_part_holds_own_torrents(workers, hashes, parts, i, hash);
    let index = parts[i].consumer_index;
    let belongs = |hash: Seq<u8>| consumer_index(workers, hash) == index;
    lemma_filter_keeps_counts(hashes, belongs, hash);
    assert(parts[i].hashes.to_multiset().count(hash) > 0);
}

/// A scrape request can be divided in one way only.
pub proof fn division_is_unique(
    workers: usize,
    hashes: Seq<Seq<u8>>,
    a: Seq<ScrapePartView>,
    b: Seq<ScrapePartView>,
    bound: int,
)
    requires
        bound >= 0,
        is_division(workers, hashes, a, bound),
        is_division(workers, hashes, b, bound),
    ensures
        a == b,
    decreases bound,
{
    if bound == 0 {
        if a.len() > 0 {
            assert(a[0].consumer_index < bound);
        }
        if b.len() > 0 {
            assert(b[0].consumer_index < bound);
        }
        assert(a == b);
    } else {
        let last = bound - 1;
        lemma_without_last_worker(workers, hashes, a, bound);
        lemma_without_last_worker(workers, hashes, b, bound);
        if hashes_of(workers, hashes, last).len() > 0 {
            division_is_unique(workers, hashes, a.drop_last(), b.drop_last(), last);
            assert(a == a.drop_last().push(a.last()));
            assert(b == b.drop_last().push(b.last()));
        } else {
            division_is_unique(workers, hashes, a, b, last);
        }
    }
}

proof fn lemma_without_last_worker(
    workers: usize,
    hashes: Seq<Seq<u8>>,
    parts: Seq<ScrapePartView>,
    bound: int,
)
    requires
        bound > 0,
        is_division(workers, hashes, parts, bound),
    ensures
        hashes_of(workers, hashes, bound - 1).len() > 0 ==> {
            &&& parts.len() > 0
            &&& parts.last() == (ScrapePartView {
                consumer_index: bound - 1,
                hashes: hashes_of(workers, hashes, bound - 1),
            })
            &&& is_division(workers, hashes, parts.drop_last(), bound - 1)
        },
        hashes_of(workers, hashes, bound - 1).len() == 0 ==> is_division(
            workers,
            hashes,
            parts,
            bound - 1,
        ),
{
    let last = bound - 1;
    if hashes_of(workers, hashes, last).len() > 0 {
        let m = choose|i: int| 0 <= i < parts.len() && (#[trigger] parts[i]).consumer_index == last;
        if m < parts.len() - 1 {
            assert(parts[m].consumer_index < parts[parts.len() - 1].consumer_index);
        }
        let rest = parts.drop_last();
        assert forall|i: int| 0 <= i < rest.len() implies {
            &&& 0 <= (#[trigger] rest[i]).consumer_index < last
            &&& rest[i].hashes == hashes_of(workers, hashes, rest[i].consumer_index)
            &&& rest[i].hashes.len() > 0
        } by {
            assert(rest[i] == parts[i]);
            assert(parts[i].consumer_index < parts[m].consumer_index);
        }
        assert forall|index: int|
            0 <= index < last && (#[trigger] hashes_of(workers, hashes, index)).len()
                > 0 implies exists|i: int|
            0 <= i < rest.len() && (#[trigger] rest[i]).consumer_index == index by {
            let i = choose|i: int|
                0 <= i < parts.len() && (#[trigger] parts[i]).consumer_index == index;
            assert(rest[i] == parts[i]);
        }
    }
}

/// The answers to the parts of a scrape request, as far as they have arrived.
#[derive(Debug)]
pub struct PendingScrapeResponse {
    /// The number of workers that have not answered yet.
    pub pending_worker_responses: usize,
    pub stats: ScrapeFiles,
}

/// What happens while the answers to the parts are awaited.
#[derive(Debug)]
pub enum ScrapeEvent {
    /// No answer is awaited any more.
    StreamEnded,
    /// One of the workers will not answer.
    SenderClosed,
    /// One of the workers has answered.
    Received(ChannelResponse),
}

/// What a [`ScrapeEvent`] stands for. An answer gives statistics by info hash.
pub enum ScrapeEventView {
    StreamEnded,
    SenderClosed,
    Answer(Map<Seq<u8>, ScrapeStatistics>),
    OtherAnswer,
}

impl View for ScrapeEvent {
    type V = ScrapeEventView;

    open spec fn view(&self) -> ScrapeEventView {
        match *self {
            ScrapeEvent::StreamEnded => ScrapeEventView::StreamEnded,
            ScrapeEvent::SenderClosed => ScrapeEventView::SenderClosed,
            ScrapeEvent::Received(ChannelResponse::Scrape { response, .. }) => {
                ScrapeEventView::Answer(by_hash(response@))
            },
            ScrapeEvent::Received(ChannelResponse::Announce { .. }) => ScrapeEventView::OtherAnswer,
        }
    }
}

/// How far the answers have arrived: the number of those that have not, and the
/// statistics in those that have.
pub struct ScrapeProgress {
    pub pending: int,
    pub stats: Map<Seq<u8>, ScrapeStatistics>,
}

/// What comes of an event: the progress after it, and the statistics of the whole
/// response, or an error, if the event gives one.
pub open spec fn scrape_step(progress: ScrapeProgress, event: ScrapeEventView) -> (
    ScrapeProgress,
    Result<Option<Map<Seq<u8>, ScrapeStatistics>>, ConnectionErrorView>,
) {
    match event {
        ScrapeEventView::StreamEnded => (
            progress,
            Err(
                ConnectionErrorView::ScrapeChannelError(
                    "stream ended before all partial scrape responses received"@,
                ),
            ),
        ),
        ScrapeEventView::SenderClosed => (
            progress,
            Err(ConnectionErrorView::ScrapeChannelError("sender is closed"@)),
        ),
        ScrapeEventView::OtherAnswer => (
            progress,
            Err(ConnectionErrorView::UnexpectedInternalResponse),
        ),
        ScrapeEventView::Answer(answer) => {
            let merged = progress.stats.union_prefer_right(answer);
            if progress.pending == 1 {
                (ScrapeProgress { pending: 0, stats: Map::empty() }, Ok(Some(merged)))
            } else {
                (ScrapeProgress { pending: progress.pending - 1, stats: merged }, Ok(None))
            }
        },
    }
}

/// What the result of taking note of an event stands for.
pub open spec fn whole_result(result: Result<Option<Response>, ConnectionError>) -> Result<
    Option<Map<Seq<u8>, ScrapeStatistics>>,
    ConnectionErrorView,
> {
    match result {
        Ok(Some(Response::Scrape(response))) => Ok(Some(by_hash(response@))),
        Ok(Some(_)) => Err(ConnectionErrorView::UnexpectedInternalResponse),
        Ok(None) => Ok(None),
        Err(err) => Err(err@),
    }
}

impl PendingScrapeResponse {
    pub open spec fn progress(&self) -> ScrapeProgress {
        ScrapeProgress {
            pending: self.pending_worker_responses as int,
            stats: by_hash(self.stats@),
        }
    }

    /// No answer has arrived yet.
    pub fn new(pending_worker_responses: usize) -> (pending: Self)
        ensures
            pending.pending_worker_responses == pending_worker_responses,
            pending.stats@ == Seq::<(Seq<u8>, ScrapeStatistics)>::empty(),
    {
        PendingScrapeResponse { pending_worker_responses, stats: ScrapeFiles::new() }
    }

    /// Takes note of an event. The whole response is given as soon as the last
    /// worker has answered.
    pub fn receive(&mut self, event: ScrapeEvent) -> (result: Result<
        Option<Response>,
        ConnectionError,
    >)
        requires
            event is Received ==> old(self).pending_worker_responses > 0,
        ensures
            (final(self).progress(), whole_result(result)) == scrape_step(
                old(self).progress(),
                event@,
            ),
            result matches Ok(Some(response)) ==> response is Scrape,
            match event {
                ScrapeEvent::StreamEnded => {
                    &&& result matches Err(err)
                    &&& err@ == ConnectionErrorView::ScrapeChannelError(
                        "stream ended before all partial scrape responses received"@,
                    )
                    &&& *final(self) == *old(self)
                },
                ScrapeEvent::SenderClosed => {
                    &&& result matches Err(err)
                    &&& err@ == ConnectionErrorView::ScrapeChannelError("sender is closed"@)
                    &&& *final(self) == *old(self)
                },
                ScrapeEvent::Received(ChannelResponse::Announce { .. }) => {
                    &&& result matches Err(err)
                    &&& err@ == ConnectionErrorView::UnexpectedInternalResponse
                    &&& *final(self) == *old(self)
                },
                ScrapeEvent::Received(ChannelResponse::Scrape { response, .. }) => {
                    let merged = by_hash(old(self).stats@).union_prefer_right(by_hash(response@));
                    &&& final(self).pending_worker_responses
                        == old(self).pending_worker_responses - 1
                    &&& if old(self).pending_worker_responses == 1 {
                        &&& result matches Ok(Some(whole))
                        &&& whole@ matches ResponseView::Scrape(entries)
                        &&& by_hash(entries) == merged
                        &&& ascending(entries)
                        &&& final(self).stats@ == Seq::<(Seq<u8>, ScrapeStatistics)>::empty()
                    } else {
                        &&& result matches Ok(None)
                        &&& by_hash(final(self).stats@) == merged
                    }
                },
            },
    {
        match event {
            ScrapeEvent::StreamEnded => Err(
                ConnectionError::ScrapeChannelError(
                    "stream ended before all partial scrape responses received",
                ),
            ),
            ScrapeEvent::SenderClosed => Err(
                ConnectionError::ScrapeChannelError("sender is closed"),
            ),
            ScrapeEvent::Received(ChannelResponse::Announce { .. }) => Err(
                ConnectionError::UnexpectedInternalResponse,
            ),
            ScrapeEvent::Received(ChannelResponse::Scrape { response, .. }) => {
                self.stats.extend(&response.files);
                self.pending_worker_responses = self.pending_worker_responses - 1;
                proof {
                    nothing_is_found_in_no_entries();
                }
                if self.pending_worker_responses == 0 {
                    let mut files = ScrapeFiles::new();
                    std::mem::swap(&mut files, &mut self.stats);
                    Ok(Some(Response::Scrape(ScrapeResponse { files })))
                } else {
                    Ok(None)
                }
            },
        }
    }
}

/// The statistics that answers give together, a later answer taking precedence
/// over an earlier one.
pub open spec fn merged_answers(answers: Seq<Map<Seq<u8>, ScrapeStatistics>>) -> Map<
    Seq<u8>,
    ScrapeStatistics,
>
    decreases answers.len(),
{
    if answers.len() == 0 {
        Map::empty()
    } else {
        merged_answers(answers.drop_last()).union_prefer_right(answers.last())
    }
}

/// Whether no two answers speak of the same torrent.
pub open spec fn answers_are_disjoint(answers: Seq<Map<Seq<u8>, ScrapeStatistics>>) -> bool {
    forall|i: int, j: int, hash: Seq<u8>|
        0 <= i < answers.len() && 0 <= j < answers.len() && #[trigger] answers[i].contains_key(hash)
            && #[trigger] answers[j].contains_key(hash) ==> i == j
}

/// Answers about different torrents give, together, exactly the torrents that
/// one of them speaks of, each with the statistics in that answer.
pub proof fn merged_answers_keep_each_answer(answers: Seq<Map<Seq<u8>, ScrapeStatistics>>, hash: Seq<u8>)
    requires
        answers_are_disjoint(answers),
    ensures
        merged_answers(answers).contains_key(hash) <==> exists|i: int|
            0 <= i < answers.len() && #[trigger] answers[i].contains_key(hash),
        forall|i: int|
            0 <= i < answers.len() && #[trigger] answers[i].contains_key(hash) ==> merged_answers(
                answers,
            )[hash] == answers[i][hash],
    decreases answers.len(),
{
    if answers.len() > 0 {
        let rest = answers.drop_last();
        assert forall|i: int, j: int, hash: Seq<u8>|
            0 <= i < rest.len() && 0 <= j < rest.len() && #[trigger] rest[i].contains_key(hash)
                && #[trigger] rest[j].contains_key(hash) implies i == j by {
            assert(answers[i].contains_key(hash) && answers[j].contains_key(hash));
        }
        merged_answers_keep_each_answer(rest, hash);
        let last = answers.len() - 1;
        if merged_answers(answers).contains_key(hash) {
            if answers[last].contains_key(hash) {
            } else {
                let i = choose|i: int|
                    0 <= i < rest.len() && #[trigger] rest[i].contains_key(hash);
                assert(answers[i].contains_key(hash));
            }
        }
        assert forall|i: int| 0 <= i < answers.len() && #[trigger] answers[i].contains_key(
            hash,
        ) implies merged_answers(answers).contains_key(hash) && merged_answers(answers)[hash]
            == answers[i][hash] by {
            if i < last {
                assert(rest[i].contains_key(hash));
                assert(!answers[last].contains_key(hash));
            }
        }
    }
}

/// What comes of answers that arrive one after another: the progress after them, and
/// what the last of them gives.
pub open spec fn gathered(
    workers: int,
    answers: Seq<Map<Seq<u8>, ScrapeStatistics>>,
) -> (ScrapeProgress, Result<Option<Map<Seq<u8>, ScrapeStatistics>>, ConnectionErrorView>)
    decreases answers.len(),
{
    if answers.len() == 0 {
        (ScrapeProgress { pending: workers, stats: Map::empty() }, Ok(None))
    } else {
        scrape_step(
            gathered(workers, answers.drop_last()).0,
            ScrapeEventView::Answer(answers.last()),
        )
    }
}

/// The response is given with the answer of the last worker, not before. It then holds
/// what all the answers say together, the first as well as the last.
pub proof fn last_answer_completes_the_response(
    workers: int,
    answers: Seq<Map<Seq<u8>, ScrapeStatistics>>,
)
    requires
        0 < answers.len() <= workers,
    ensures
        answers.len() < workers ==> gathered(workers, answers).1 == Ok::<
            Option<Map<Seq<u8>, ScrapeStatistics>>,
            ConnectionErrorView,
        >(None),
        answers.len() == workers ==> (gathered(workers, answers).1 matches Ok(Some(whole)) && forall|
            hash: Seq<u8>,
        |
            #![trigger whole.dom().contains(hash)]
            {
                &&& whole.dom().contains(hash) <==> exists|i: int|
                    0 <= i < answers.len() && (#[trigger] answers[i]).dom().contains(hash)
                &&& whole.dom().contains(hash) ==> exists|i: int|
                    {
                        &&& 0 <= i < answers.len()
                        &&& (#[trigger] answers[i]).dom().contains(hash)
                        &&& whole[hash] == answers[i][hash]
                        &&& forall|j: int|
                            i < j < answers.len() ==> !(#[trigger] answers[j]).dom().contains(hash)
                    }
            }),
{
    lemma_answers_are_gathered(workers, answers);
    if answers.len() == workers {
        assert(gathered(workers, answers).1 == Ok::<
            Option<Map<Seq<u8>, ScrapeStatistics>>,
            ConnectionErrorView,
        >(Some(merged_answers(answers))));
        assert forall|hash: Seq<u8>|
            #![trigger merged_answers(answers).dom().contains(hash)]
            {
                &&& merged_answers(answers).dom().contains(hash) <==> exists|i: int|
                    0 <= i < answers.len() && (#[trigger] answers[i]).dom().contains(hash)
                &&& merged_answers(answers).dom().contains(hash) ==> exists|i: int|
                    {
                        &&& 0 <= i < answers.len()
                        &&& (#[trigger] answers[i]).dom().contains(hash)
                        &&& merged_answers(answers)[hash] == answers[i][hash]
                        &&& forall|j: int|
                            i < j < answers.len() ==> !(#[trigger] answers[j]).dom().contains(hash)
                    }
            } by {
            lemma_last_mention_counts(answers, hash);
        }
    }
}

proof fn lemma_answers_are_gathered(workers: int, answers: Seq<Map<Seq<u8>, ScrapeStatistics>>)
    requires
        answers.len() <= workers,
    ensures
        answers.len() < workers ==> gathered(workers, answers) == (
            ScrapeProgress { pending: workers - answers.len(), stats: merged_answers(answers) },
            Ok::<Option<Map<Seq<u8>, ScrapeStatistics>>, ConnectionErrorView>(None),
        ),
        0 < answers.len() == workers ==> gathered(workers, answers).1 == Ok::<
            Option<Map<Seq<u8>, ScrapeStatistics>>,
            ConnectionErrorView,
        >(Some(merged_answers(answers))),
    decreases answers.len(),
{
    if answers.len() > 0 {
        lemma_answers_are_gathered(workers, answers.drop_last());
    }
}

proof fn lemma_last_mention_counts(answers: Seq<Map<Seq<u8>, ScrapeStatistics>>, hash: Seq<u8>)
    ensures
        merged_answers(answers).dom().contains(hash) <==> exists|i: int|
            0 <= i < answers.len() && (#[trigger] answers[i]).dom().contains(hash),
        merged_answers(answers).dom().contains(hash) ==> exists|i: int|
            {
                &&& 0 <= i < answers.len()
                &&& (#[trigger] answers[i]).dom().contains(hash)
                &&& merged_answers(answers)[hash] == answers[i][hash]
                &&& forall|j: int|
                    i < j < answers.len() ==> !(#[trigger] answers[j]).dom().contains(hash)
            },
    decreases answers.len(),
{
    if answers.len() > 0 {
        let rest = answers.drop_last();
        let last = answers.len() - 1;
        lemma_last_mention_counts(rest, hash);
        if answers[last].dom().contains(hash) {
            assert(merged_answers(answers)[hash] == answers[last][hash]);
        } else {
            if merged_answers(rest).dom().contains(hash) {
                let i = choose|i: int|
                    {
                        &&& 0 <= i < rest.len()
                        &&& (#[trigger] rest[i]).dom().contains(hash)
                        &&& merged_answers(rest)[hash] == rest[i][hash]
                        &&& forall|j: int|
                            i < j < rest.len() ==> !(#[trigger] rest[j]).dom().contains(hash)
                    };
                assert(answers[i] == rest[i]);
                assert forall|j: int| i < j < answers.len() implies !(
                #[trigger] answers[j]).dom().contains(hash) by {
                    if j < last {
                        assert(rest[j] == answers[j]);
                    }
                }
            }
            if exists|i: int|
                0 <= i < answers.len() && (#[trigger] answers[i]).dom().contains(hash) {
                let i = choose|i: int|
                    0 <= i < answers.len() && (#[trigger] answers[i]).dom().contains(hash);
                assert(rest[i] == answers[i]);
            }
        }
    }
}

/// A worker that will not answer, the end of the answers and an answer of another kind
/// are errors of their own, at any time, and leave what has arrived as it is.
pub proof fn missing_answers_are_errors(
    progress: ScrapeProgress,
    announce: AnnounceResponse,
    request_id: RequestId,
)
    ensures
        scrape_step(progress, ScrapeEvent::StreamEnded@) == (
            progress,
            Err::<Option<Map<Seq<u8>, ScrapeStatistics>>, ConnectionErrorView>(
                ConnectionErrorView::ScrapeChannelError(
                    "stream ended before all partial scrape responses received"@,
                ),
            ),
        ),
        scrape_step(progress, ScrapeEvent::SenderClosed@) == (
            progress,
            Err::<Option<Map<Seq<u8>, ScrapeStatistics>>, ConnectionErrorView>(
                ConnectionErrorView::ScrapeChannelError("sender is closed"@),
            ),
        ),
        scrape_step(
            progress,
            ScrapeEvent::Received(ChannelResponse::Announce { request_id, response: announce })@,
        ) == (
            progress,
            Err::<Option<Map<Seq<u8>, ScrapeStatistics>>, ConnectionErrorView>(
                ConnectionErrorView::UnexpectedInternalResponse,
            ),
        ),
{
}

/// A torrent belongs to the worker with the number of its first byte, and where there
/// is no such worker, to the one that is reached by counting the workers round. The
/// other bytes do not matter.
pub proof fn first_byte_decides_on_the_worker(workers: usize, a: Seq<u8>, b: Seq<u8>)
    requires
        workers > 0,
    ensures
        0 <= consumer_index(workers, a) < workers,
        a[0] == b[0] ==> consumer_index(workers, a) == consumer_index(workers, b),
        a[0] < workers ==> consumer_index(workers, a) == a[0],
        a[0] + workers == b[0] ==> consumer_index(workers, a) == consumer_index(workers, b),
{
    let first = a[0] as int;
    let count = workers as int;
    assert(0 <= first % count < count && (first < count ==> first % count == first) && (first
        + count) % count == first % count) by (nonlinear_arith)
        requires
            first >= 0,
            count > 0,
    ;
}

/// Taking note of one more answer merges it with those before.
pub proof fn each_answer_is_merged(
    answers: Seq<Map<Seq<u8>, ScrapeStatistics>>,
    answer: Map<Seq<u8>, ScrapeStatistics>,
)
    ensures
        merged_answers(Seq::empty()) == Map::<Seq<u8>, ScrapeStatistics>::empty(),
        merged_answers(answers.push(answer)) == merged_answers(answers).union_prefer_right(answer),
{
    assert(answers.push(answer).drop_last() == answers);
}

/// Workers that answer for no other torrents than those in their parts give
/// answers about different torrents.
pub proof fn answers_to_parts_are_disjoint(
    workers: usize,
    hashes: Seq<Seq<u8>>,
    parts: Seq<ScrapePartView>,
    answers: Seq<Map<Seq<u8>, ScrapeStatistics>>,
)
    requires
        is_division(workers, hashes, parts, workers as int),
        answers.len() == parts.len(),
        forall|i: int, hash: Seq<u8>|
            0 <= i < parts.len() && #[trigger] answers[i].contains_key(hash)
                ==> parts[i].hashes.contains(hash),
    ensures
        answers_are_disjoint(answers),
{
    assert forall|i: int, j: int, hash: Seq<u8>|
        0 <= i < answers.len() && 0 <= j < answers.len() && #[trigger] answers[i].contains_key(hash)
            && #[trigger] answers[j].contains_key(hash) implies i == j by {
        lemma_part_holds_own_torrents(workers, hashes, parts, i, hash);
        lemma_part_holds_own_torrents(workers, hashes, parts, j, hash);
        if i < j {
            assert(parts[i].consumer_index < parts[j].consumer_index);
        } else if j < i {
            assert(parts[j].consumer_index < parts[i].consumer_index);
        }
    }
}

/// The order in which the workers answer does not matter: answers about different
/// torrents give the same entries in any order.
pub proof fn order_of_answers_does_not_matter(
    a: Seq<Map<Seq<u8>, ScrapeStatistics>>,
    b: Seq<Map<Seq<u8>, ScrapeStatistics>>,
    entries_a: Seq<(Seq<u8>, ScrapeStatistics)>,
    entries_b: Seq<(Seq<u8>, ScrapeStatistics)>,
)
    requires
        answers_are_disjoint(a),
        answers_are_disjoint(b),
        forall|answer: Map<Seq<u8>, ScrapeStatistics>|
            #[trigger] a.contains(answer) <==> b.contains(answer),
        ascending(entries_a),
        ascending(entries_b),
        by_hash(entries_a) == merged_answers(a),
        by_hash(entries_b) == merged_answers(b),
    ensures
        merged_answers(a) == merged_answers(b),
        entries_a == entries_b,
{
    assert forall|hash: Seq<u8>|
        #![trigger merged_answers(a).dom().contains(hash)]
        #![trigger merged_answers(b).dom().contains(hash)]
        merged_answers(a).dom().contains(hash) == merged_answers(b).dom().contains(hash) && (
        merged_answers(a).dom().contains(hash) ==> merged_answers(a)[hash] == merged_answers(
            b,
        )[hash]) by {
        merged_answers_keep_each_answer(a, hash);
        merged_answers_keep_each_answer(b, hash);
        if merged_answers(a).contains_key(hash) {
            let i = choose|i: int| 0 <= i < a.len() && #[trigger] a[i].contains_key(hash);
            assert(a.contains(a[i]));
            assert(b.contains(a[i]));
            let j = choose|j: int| 0 <= j < b.len() && b[j] == a[i];
            assert(b[j].contains_key(hash));
        }
        if merged_answers(b).contains_key(hash) {
            let j = choose|j: int| 0 <= j < b.len() && #[trigger] b[j].contains_key(hash);
            assert(b.contains(b[j]));
            assert(a.contains(b[j]));
            let i = choose|i: int| 0 <= i < a.len() && a[i] == b[j];
            assert(a[i].contains_key(hash));
        }
    }
    assert(merged_answers(a) =~= merged_answers(b));
    statistics_determine_entries(entries_a, entries_b);
}

/// The torrents of a worker are asked for in the order of the request: those in its
/// first half before those in its second, and each torrent of the worker where it
/// stands.
pub proof fn parts_keep_the_order_of_the_request(
    workers: usize,
    a: Seq<Seq<u8>>,
    b: Seq<Seq<u8>>,
    hash: Seq<u8>,
    index: int,
)
    ensures
        hashes_of(workers, a + b, index) == hashes_of(workers, a, index) + hashes_of(
            workers,
            b,
            index,
        ),
        hashes_of(workers, seq![hash], index) == if hash[0] as int % workers as int == index {
            seq![hash]
        } else {
            Seq::empty()
        },
    decreases b.len(),
{
    let belongs = |hash: Seq<u8>| consumer_index(workers, hash) == index;
    reveal(Seq::filter);
    if b.len() > 0 {
        parts_keep_the_order_of_the_request(workers, a, b.drop_last(), hash, index);
        assert((a + b).drop_last() =~= a + b.drop_last());
        assert((a + b).last() == b.last());
        assert((a + b).filter(belongs) =~= a.filter(belongs) + b.filter(belongs));
    } else {
        assert(a + b =~= a);
        assert(a.filter(belongs) + b.filter(belongs) =~= a.filter(belongs));
    }
    reveal_with_fuel(Seq::filter, 2);
    assert(seq![hash].drop_last() =~= Seq::<Seq<u8>>::empty());
    assert(hashes_of(workers, seq![hash], index) =~= if hash[0] as int % workers as int == index {
        seq![hash]
    } else {
        Seq::empty()
    });
}

} // verus!
