//! Forgetting everything: an install as fresh as on its first day.
//!
//! All that was published is taken down first. What is on file is the only
//! record of it, and holds the only keys that can take it down.
use vstd::prelude::*;

use crate::card::{CardsStore, ProfileView};
use crate::publish;
use crate::publish::Unpublish;
use crate::referral;
use crate::referral::{ReferralLink, ReferralLinkView};
use crate::strmap::StrMap;
use crate::text;

verus! {

/// What is to be taken down of one key, and how a user knows it.
#[derive(Debug)]
pub struct ResetJob {
    pub key: String,
    pub hash: &'static str,
    pub label: String,
    pub uuids: StrMap<String>,
}

#[verifier::ext_equal]
pub struct ResetJobView {
    pub key: Seq<char>,
    pub hash: Seq<char>,
    pub label: Seq<char>,
    pub uuids: Map<Seq<char>, Seq<char>>,
}

impl View for ResetJob {
    type V = ResetJobView;

    open spec fn view(&self) -> ResetJobView {
        ResetJobView {
            key: self.key@,
            hash: self.hash@,
            label: self.label@,
            uuids: self.uuids@,
        }
    }
}

pub open spec fn job_views(jobs: Seq<ResetJob>) -> Seq<ResetJobView> {
    Seq::new(jobs.len(), |i: int| jobs[i]@)
}

/// What is to be taken down of a card.
pub open spec fn card_job(card: ProfileView) -> ResetJobView {
    ResetJobView {
        key: card.id,
        hash: publish::BDO_HASH@,
        label: match card.name {
            Some(name) => name,
            None => "card"@,
        },
        uuids: card.bdo_uuid_by_env,
    }
}

/// What is to be taken down of the invitation to the app.
pub open spec fn referral_job(links: Map<Seq<char>, ReferralLinkView>) -> ResetJobView {
    ResetJobView {
        key: referral::REFERRAL_KEY@,
        hash: referral::REFERRAL_HASH@,
        label: "referral link"@,
        uuids: referral::link_uuids(links),
    }
}

/// What is to be taken down of the cards, in order.
pub open spec fn card_jobs(cards: Seq<ProfileView>) -> Seq<ResetJobView> {
    Seq::new(cards.len(), |i: int| card_job(cards[i]))
}

/// All that an install published: its cards, in order, and the invitation.
pub open spec fn all_jobs(
    cards: Seq<ProfileView>,
    links: Map<Seq<char>, ReferralLinkView>,
) -> Seq<ResetJobView> {
    card_jobs(cards).push(referral_job(links))
}

/// How a user is told of what could not be taken down: by its label, and the
/// base in brackets.
pub open spec fn reports(label: Seq<char>, failed: Seq<Seq<char>>) -> Seq<Seq<char>> {
    Seq::new(failed.len(), |i: int| label + " ("@ + failed[i] + ")"@)
}

/// What could not be taken down of the first jobs, given how taking down came
/// out for each.
pub open spec fn all_reports(
    jobs: Seq<ResetJobView>,
    tried: Seq<publish::UnpublishView>,
) -> Seq<Seq<char>>
    decreases tried.len(),
{
    if tried.len() == 0 {
        Seq::empty()
    } else {
        all_reports(jobs, tried.drop_last()) + reports(
            jobs[tried.len() - 1].label,
            publish::failed_keys(tried.last().targets, tried.last().outcomes),
        )
    }
}

/// What is said when not everything could be taken down.
pub open spec fn reset_refusal(reports: Seq<Seq<char>>) -> Seq<char> {
    "Couldn't remove published copies of: "@ + text::joined(reports, ", "@)
        + ". Nothing was deleted locally, so you can try again \u{2014} check your connection first."@
}

/// The files that make an install who it is: the cards, the keys, the
/// invitation, the single card of old, and the pinned base.
pub open spec fn local_files() -> Seq<Seq<char>> {
    seq!["cards.json"@, "bdo_keys.json"@, "referral.json"@, "profile.json"@, "base.json"@]
}

/// What became of removing a file.
#[derive(Debug)]
pub enum Removal {
    Removed,
    /// There was no such file.
    NotFound,
    /// It could not be removed, for the reason given.
    Failed(String),
}

/// Whether removing goes on: a file that is not there is as good as removed.
pub fn removal_verdict(path: &str, outcome: Removal) -> (r: Result<(), String>)
    ensures
        match outcome {
            Removal::Failed(why) => r matches Err(e) && e@ == "Failed to remove "@ + path@ + ": "@
                + why@,
            _ => r is Ok,
        },
{
    match outcome {
        Removal::Failed(why) => {
            let mut message = "Failed to remove ".to_string();
            message.append(path);
            message.append(": ");
            message.append(why.as_str());
            Err(message)
        },
        _ => Ok(()),
    }
}

// ---------------------------------------------------------------------------
// The course of a reset

/// The course of taking down all that an install published: the cards one after
/// the other, then the invitation, each tried whatever became of those before.
pub struct Reset {
    jobs: Vec<ResetJob>,
    invited: bool,
    next: usize,
    reports: Vec<String>,
    tried: Ghost<Seq<publish::UnpublishView>>,
}

/// What a [`Reset`] has to take down, whether that counts the invitation yet,
/// and how what was tried so far came out.
#[verifier::ext_equal]
pub struct ResetView {
    pub jobs: Seq<ResetJobView>,
    pub invited: bool,
    pub tried: Seq<publish::UnpublishView>,
}

/// Whether `course` is the whole of taking down what `job` names.
pub open spec fn finished(course: publish::UnpublishView, job: ResetJobView) -> bool {
    publish::concerns(course, job.key, job.hash, job.uuids) && course.outcomes.len()
        == course.targets.len()
}

/// Whether what was tried are the first jobs, each of them to its end.
pub open spec fn in_order(v: ResetView) -> bool {
    &&& v.tried.len() <= v.jobs.len()
    &&& forall|i: int| 0 <= i < v.tried.len() ==> finished(#[trigger] v.tried[i], v.jobs[i])
}

impl View for Reset {
    type V = ResetView;

    closed spec fn view(&self) -> ResetView {
        ResetView { jobs: job_views(self.jobs@), invited: self.invited, tried: self.tried@ }
    }
}

impl Reset {
    pub closed spec fn wf(&self) -> bool {
        &&& in_order(self@)
        &&& self.next == self.tried@.len()
        &&& text::texts(self.reports@) == all_reports(job_views(self.jobs@), self.tried@)
    }

    /// Whether everything was tried: every card, and the invitation.
    pub open spec fn done(&self) -> bool {
        self@.invited && self@.tried.len() == self@.jobs.len()
    }

    /// Adds the invitation to what is to be taken down, as it stands published
    /// once the cards were tried.
    pub fn add_invitation(&mut self, links: &StrMap<ReferralLink>)
        requires
            old(self).wf(),
            !old(self)@.invited,
        ensures
            final(self).wf(),
            final(self)@ == (ResetView {
                jobs: old(self)@.jobs.push(referral_job(links@)),
                invited: true,
                ..old(self)@
            }),
    {
        let ghost before = job_views(self.jobs@);
        self.jobs.push(
            ResetJob {
                key: referral::REFERRAL_KEY.to_string(),
                hash: referral::REFERRAL_HASH,
                label: "referral link".to_string(),
                uuids: referral::referral_uuids(links),
            },
        );
        self.invited = true;
        proof {
            let after = job_views(self.jobs@);
            assert(after =~= before.push(referral_job(links@)));
            lemma_reports_of_first_jobs(before, after, self.tried@);
            assert forall|i: int| 0 <= i < self.tried@.len() implies finished(
                #[trigger] self.tried@[i],
                after[i],
            ) by {
                assert(finished(old(self)@.tried[i], before[i]));
            }
        }
    }

    /// The course of what is to be taken down next; none once all that is known
    /// so far was tried.
    pub fn next_course(&self) -> (r: Option<Unpublish>)
        requires
            self.wf(),
        ensures
            r is None <==> self@.tried.len() == self@.jobs.len(),
            r matches Some(course) ==> {
                let job = self@.jobs[self@.tried.len() as int];
                &&& self@.tried.len() < self@.jobs.len()
                &&& course.wf()
                &&& publish::started(course@, job.key, job.hash, job.uuids)
            },
    {
        if self.next < self.jobs.len() {
            let job = &self.jobs[self.next];
            assert(job@ == self@.jobs[self.next as int]);
            Some(publish::unpublish_everywhere(job.key.as_str(), job.hash, &job.uuids))
        } else {
            None
        }
    }

    /// Takes note of how the course came out that was to be taken next.
    pub fn record(&mut self, course: Unpublish)
        requires
            old(self).wf(),
            old(self)@.tried.len() < old(self)@.jobs.len(),
            course.wf(),
            finished(course@, old(self)@.jobs[old(self)@.tried.len() as int]),
        ensures
            final(self).wf(),
            final(self)@ == (ResetView { tried: old(self)@.tried.push(course@), ..old(self)@ }),
    {
        let ghost before = self.tried@;
        let ghost came_out = course@;
        let ghost told = text::texts(self.reports@);
        let count = self.jobs.len();
        assert(self.next < count);
        let failed = course.into_failed();
        let ghost job = self@.jobs[self.next as int];
        report_failures(&mut self.reports, &self.jobs[self.next], &failed);
        self.next = self.next + 1;
        self.tried = Ghost(before.push(came_out));
        proof {
            assert(before.push(came_out).drop_last() =~= before);
            assert(text::texts(self.reports@) == told + reports(
                job.label,
                publish::failed_keys(came_out.targets, came_out.outcomes),
            ));
        }
    }
}

/// Adds to `out` what could not be taken down of `job`.
fn report_failures(out: &mut Vec<String>, job: &ResetJob, failed: &Vec<String>)
    ensures
        text::texts(final(out)@) == text::texts(old(out)@) + reports(
            job@.label,
            text::texts(failed@),
        ),
{
    let ghost before = text::texts(out@);
    let ghost all = reports(job@.label, text::texts(failed@));
    for i in 0..failed.len()
        invariant
            all == reports(job@.label, text::texts(failed@)),
            text::texts(out@) == before + all.take(i as int),
    {
        let ghost so_far = text::texts(out@);
        let mut line = job.label.clone();
        line.append(" (");
        line.append(failed[i].as_str());
        line.append(")");
        out.push(line);
        assert(text::texts(out@) =~= so_far.push(all[i as int]));
        assert(before + all.take(i as int + 1) =~= so_far.push(all[i as int]));
    }
    assert(all.take(all.len() as int) =~= all);
}

/// Starts to take down all that the install published, with the cards.
pub fn start_reset(store: &CardsStore) -> (r: Reset)
    ensures
        r.wf(),
        r@.jobs == card_jobs(store@),
        !r@.invited,
        r@.tried.len() == 0,
{
    let ghost wanted = card_jobs(store@);
    let mut jobs: Vec<ResetJob> = Vec::new();
    for i in 0..store.cards.len()
        invariant
            wanted == card_jobs(store@),
            job_views(jobs@) == wanted.take(i as int),
    {
        let ghost so_far = job_views(jobs@);
        let card = &store.cards[i];
        assert(card@ == store@[i as int]);
        let label = match &card.name {
            Some(name) => name.clone(),
            None => "card".to_string(),
        };
        jobs.push(
            ResetJob {
                key: card.id.clone(),
                hash: publish::BDO_HASH,
                label,
                uuids: card.bdo_uuid_by_env.clone(),
            },
        );
        assert(job_views(jobs@) =~= so_far.push(wanted[i as int]));
        assert(wanted.take(i as int + 1) =~= so_far.push(wanted[i as int]));
    }
    assert(wanted.take(wanted.len() as int) =~= wanted);
    let r = Reset {
        jobs,
        invited: false,
        next: 0,
        reports: Vec::new(),
        tried: Ghost(Seq::empty()),
    };
    assert(text::texts(r.reports@) =~= Seq::empty());
    r
}

/// Whether the install may forget: only once everything was tried and nothing
/// of it is published any more. Gives the files to remove then, in order; else
/// names everything that is still published.
pub fn reset_verdict(course: Reset) -> (r: Result<Vec<String>, String>)
    requires
        course.wf(),
        course.done(),
    ensures
        r is Ok <==> nothing_left(course@),
        r matches Ok(files) ==> text::texts(files@) == local_files(),
        r matches Err(e) ==> e@ == reset_refusal(all_reports(course@.jobs, course@.tried)),
{
    proof {
        law_reset_needs_clean_remote(course@);
    }
    if course.reports.len() == 0 {
        assert(text::texts(course.reports@).len() == 0);
        let mut files: Vec<String> = Vec::new();
        files.push("cards.json".to_string());
        files.push("bdo_keys.json".to_string());
        files.push("referral.json".to_string());
        files.push("profile.json".to_string());
        files.push("base.json".to_string());
        assert(text::texts(files@) =~= local_files());
        Ok(files)
    } else {
        assert(text::texts(course.reports@).len() > 0);
        let mut message = "Couldn't remove published copies of: ".to_string();
        message.append(text::join(&course.reports, ", ").as_str());
        message.append(
            ". Nothing was deleted locally, so you can try again \u{2014} check your connection first.",
        );
        Err(message)
    }
}

// ---------------------------------------------------------------------------
// What holds of a reset

/// What is to be taken down later changes nothing of the reports so far.
proof fn lemma_reports_of_first_jobs(
    before: Seq<ResetJobView>,
    after: Seq<ResetJobView>,
    tried: Seq<publish::UnpublishView>,
)
    requires
        tried.len() <= before.len() <= after.len(),
        forall|i: int| 0 <= i < before.len() ==> before[i] == #[trigger] after[i],
    ensures
        all_reports(before, tried) == all_reports(after, tried),
    decreases tried.len(),
{
    if tried.len() > 0 {
        lemma_reports_of_first_jobs(before, after, tried.drop_last());
        assert(before[tried.len() - 1] == after[tried.len() - 1]);
    }
}

/// Whether `course` took down every record of `job`.
pub open spec fn clean(course: publish::UnpublishView, job: ResetJobView) -> bool {
    forall|k: Seq<char>| #[trigger]
        job.uuids.contains_key(k) ==> publish::took_down(course, k, job.uuids[k])
}

/// Whether every record of every job was taken down.
pub open spec fn nothing_left(v: ResetView) -> bool {
    &&& v.tried.len() == v.jobs.len()
    &&& forall|i: int| 0 <= i < v.jobs.len() ==> clean(#[trigger] v.tried[i], v.jobs[i])
}

/// There is nothing to report exactly if what was tried is clean.
proof fn lemma_no_reports(v: ResetView)
    requires
        in_order(v),
    ensures
        all_reports(v.jobs, v.tried).len() == 0 <==> forall|i: int|
            0 <= i < v.tried.len() ==> clean(#[trigger] v.tried[i], v.jobs[i]),
    decreases v.tried.len(),
{
    if v.tried.len() > 0 {
        let front = ResetView { tried: v.tried.drop_last(), ..v };
        let n = v.tried.len() - 1;
        let job = v.jobs[n];
        assert forall|i: int| 0 <= i < front.tried.len() implies finished(
            #[trigger] front.tried[i],
            front.jobs[i],
        ) by {
            assert(finished(v.tried[i], v.jobs[i]));
        }
        lemma_no_reports(front);
        assert(finished(v.tried[n], v.jobs[n]));
        publish::law_unpublished_leaves_no_record(v.tried[n], job.key, job.hash, job.uuids);
        if forall|i: int| 0 <= i < v.tried.len() ==> clean(#[trigger] v.tried[i], v.jobs[i]) {
            assert forall|i: int| 0 <= i < front.tried.len() implies clean(
                #[trigger] front.tried[i],
                front.jobs[i],
            ) by {
                assert(clean(v.tried[i], v.jobs[i]));
            }
            assert(clean(v.tried[n], v.jobs[n]));
        }
        if all_reports(v.jobs, v.tried).len() == 0 {
            assert forall|i: int| 0 <= i < v.tried.len() implies clean(
                #[trigger] v.tried[i],
                v.jobs[i],
            ) by {
                if i < n {
                    assert(clean(front.tried[i], front.jobs[i]));
                }
            }
        }
    }
}

/// Nothing is forgotten while anything is still published: once every job was
/// tried, there is nothing to report exactly if every record of every job was
/// taken down.
pub proof fn law_reset_needs_clean_remote(v: ResetView)
    requires
        in_order(v),
        v.tried.len() == v.jobs.len(),
    ensures
        all_reports(v.jobs, v.tried).len() == 0 <==> nothing_left(v),
{
    lemma_no_reports(v);
}

/// A reset leaves nothing out: every card and the invitation have a job, which
/// names every record that was published.
pub proof fn law_reset_covers_everything(
    cards: Seq<ProfileView>,
    links: Map<Seq<char>, ReferralLinkView>,
)
    ensures
        all_jobs(cards, links).len() == cards.len() + 1,
        forall|i: int|
            0 <= i < cards.len() ==> {
                let job = #[trigger] all_jobs(cards, links)[i];
                job.key == cards[i].id && job.uuids == cards[i].bdo_uuid_by_env
            },
        all_jobs(cards, links).last().key == referral::REFERRAL_KEY@,
        forall|k: Seq<char>| #[trigger]
            links.contains_key(k) <==> all_jobs(cards, links).last().uuids.contains_key(k),
        forall|k: Seq<char>| #[trigger]
            links.contains_key(k) ==> all_jobs(cards, links).last().uuids[k] == links[k].uuid,
{
}

/// A reset that may forget has taken down all that the install published: every
/// record of every card, and every invitation.
pub proof fn law_forgotten_only_when_all_is_down(
    v: ResetView,
    cards: Seq<ProfileView>,
    links: Map<Seq<char>, ReferralLinkView>,
)
    requires
        v.jobs == all_jobs(cards, links),
        nothing_left(v),
    ensures
        forall|i: int, k: Seq<char>|
            0 <= i < cards.len() && #[trigger] cards[i].bdo_uuid_by_env.contains_key(k)
                ==> publish::took_down(v.tried[i], k, cards[i].bdo_uuid_by_env[k]),
        forall|k: Seq<char>| #[trigger]
            links.contains_key(k) ==> publish::took_down(
                v.tried[cards.len() as int],
                k,
                links[k].uuid,
            ),
{
    assert forall|i: int, k: Seq<char>|
        0 <= i < cards.len() && #[trigger] cards[i].bdo_uuid_by_env.contains_key(
            k,
        ) implies publish::took_down(v.tried[i], k, cards[i].bdo_uuid_by_env[k]) by {
        assert(clean(v.tried[i], v.jobs[i]));
        assert(v.jobs[i].uuids.contains_key(k));
    }
    let n = cards.len() as int;
    assert(clean(v.tried[n], v.jobs[n]));
    assert forall|k: Seq<char>| #[trigger] links.contains_key(k) implies publish::took_down(
        v.tried[n],
        k,
        links[k].uuid,
    ) by {
        assert(v.jobs[n].uuids.contains_key(k));
    }
}

/// A reset takes down cards as cards and the invitation as the invitation, and
/// a user is told of a card by its name, of a card without one as a card.
pub proof fn law_how_jobs_are_filed_and_told(
    cards: Seq<ProfileView>,
    links: Map<Seq<char>, ReferralLinkView>,
    i: int,
    job: ResetJob,
)
    ensures
        0 <= i < cards.len() ==> {
            let job = all_jobs(cards, links)[i];
            &&& job == card_jobs(cards)[i]
            &&& job.key == cards[i].id
            &&& job.hash == "bizbuz-card"@
            &&& job.uuids == cards[i].bdo_uuid_by_env
            &&& cards[i].name matches Some(name) ==> job.label == name
            &&& cards[i].name is None ==> job.label == "card"@
        },
        card_jobs(cards).len() == cards.len(),
        all_jobs(cards, links) == card_jobs(cards).push(referral_job(links)),
        referral_job(links).key == "referral"@,
        referral_job(links).hash == "bizbuz-referral"@,
        referral_job(links).label == "referral link"@,
        job@.key == job.key@ && job@.hash == job.hash@ && job@.label == job.label@ && job@.uuids
            == job.uuids@,
{
}

/// Every failure is told, in order, by the label of what stayed and the base on
/// which it did.
pub proof fn law_every_failure_is_told(
    jobs: Seq<ResetJobView>,
    tried: Seq<publish::UnpublishView>,
    next: publish::UnpublishView,
    label: Seq<char>,
    failed: Seq<Seq<char>>,
    i: int,
)
    ensures
        all_reports(jobs, Seq::empty()) == Seq::<Seq<char>>::empty(),
        all_reports(jobs, tried.push(next)) == all_reports(jobs, tried) + reports(
            jobs[tried.len() as int].label,
            publish::failed_keys(next.targets, next.outcomes),
        ),
        reports(label, failed).len() == failed.len(),
        0 <= i < failed.len() ==> reports(label, failed)[i] == label + " ("@ + failed[i] + ")"@,
{
    assert(tried.push(next).drop_last() =~= tried);
}

/// A refusal to forget names everything that stayed, with a comma between two.
pub proof fn law_refusal_names_what_stayed(told: Seq<Seq<char>>, one: Seq<char>)
    ensures
        reset_refusal(seq![one]) == "Couldn't remove published copies of: "@ + one
            + ". Nothing was deleted locally, so you can try again \u{2014} check your connection first."@,
        told.len() > 0 ==> reset_refusal(told.push(one)) == "Couldn't remove published copies of: "@
            + (text::joined(told, ", "@) + ", "@ + one)
            + ". Nothing was deleted locally, so you can try again \u{2014} check your connection first."@,
{
    text::law_joined_parts(told, seq![one], one, ", "@);
    assert(told.push(one) =~= told + seq![one]);
}

/// Nothing is left only if each job was gone through and each of its records
/// was taken down.
pub proof fn law_what_nothing_left_means(v: ResetView, i: int, k: Seq<char>)
    requires
        nothing_left(v),
        0 <= i < v.jobs.len(),
        v.jobs[i].uuids.contains_key(k),
    ensures
        v.tried.len() == v.jobs.len(),
        publish::took_down(v.tried[i], k, v.jobs[i].uuids[k]),
{
    assert(clean(v.tried[i], v.jobs[i]));
}

/// The files that are forgotten are these five: the cards, the keys, the
/// invitation, the single card of old and the pin.
pub proof fn law_what_is_forgotten()
    ensures
        local_files().len() == 5,
        local_files()[0] == "cards.json"@,
        local_files()[1] == "bdo_keys.json"@,
        local_files()[2] == "referral.json"@,
        local_files()[3] == "profile.json"@,
        local_files()[4] == "base.json"@,
{
}

/// A reset is done only when every card and the invitation were gone through,
/// each to its end.
pub proof fn law_done_means_everything_was_tried(
    course: Reset,
    one: publish::UnpublishView,
    job: ResetJobView,
)
    ensures
        course.done() <==> course@.invited && course@.tried.len() == course@.jobs.len(),
        finished(one, job) ==> one.outcomes.len() == one.targets.len() && publish::concerns(
            one,
            job.key,
            job.hash,
            job.uuids,
        ),
{
}

} // verus!
