//! What holds of every upload of the images of a conversation, whatever the
//! cache, Poe and the file system answer.
use crate::content::{extracted_urls_are_on_the_cdn, message_urls, on_poe_cdn};
use crate::image_task::{
    after_image_event, paths, started, ImageActionView, ImageEventView, PhaseView, TaskView,
};
use crate::images::{
    by_hash, image_items, is_data, jobs, jobs_in, last_of, missed, parts_of, served, wanted,
    with_answer_images, with_found, with_uploaded, with_url, JobView,
};
use crate::types::{ContentView, ItemView, MessageView};
use vstd::prelude::*;

verus! {

/// The URL of the image at a place of a conversation.
pub open spec fn image_at(messages: Seq<MessageView>, m: int, i: int) -> Option<Seq<char>> {
    if 0 <= m < messages.len() && 0 <= i < parts_of(messages[m].content).len() {
        match parts_of(messages[m].content)[i] {
            ItemView::ImageUrl(url) => Some(url),
            ItemView::Text(_) => None,
        }
    } else {
        None
    }
}

/// Two contents are the same but for the URLs of images.
pub open spec fn same_but_urls(a: ContentView, b: ContentView) -> bool {
    match (a, b) {
        (ContentView::Text(s), ContentView::Text(t)) => s == t,
        (ContentView::Multi(s), ContentView::Multi(t)) => s.len() == t.len() && forall|i: int|
            0 <= i < s.len() ==> (#[trigger] s[i] == t[i] || (s[i] is ImageUrl
                && t[i] is ImageUrl)),
        _ => false,
    }
}

/// Two conversations are the same but for the URLs of images.
pub open spec fn same_shape(a: Seq<MessageView>, b: Seq<MessageView>) -> bool {
    a.len() == b.len() && forall|m: int|
        0 <= m < a.len() ==> (#[trigger] a[m]).role == b[m].role && same_but_urls(
            a[m].content,
            b[m].content,
        )
}

/// Two conversations are the same but for the URLs of images that are not on
/// the CDN in the first.
pub open spec fn same_but_uploads(a: Seq<MessageView>, b: Seq<MessageView>) -> bool {
    same_shape(a, b) && forall|m: int, i: int|
        (#[trigger] image_at(a, m, i) matches Some(url) && on_poe_cdn(url)) ==> image_at(b, m, i)
            == image_at(a, m, i)
}

/// A job is for the image at a place.
pub open spec fn stands_at(job: JobView, m: int, i: int) -> bool {
    job.message == m && job.item == i
}

/// One of the jobs is for the image at a place.
pub open spec fn has_job(todo: Seq<JobView>, m: int, i: int) -> bool {
    exists|k: int| 0 <= k < todo.len() && #[trigger] stands_at(todo[k], m, i)
}

/// Every job is for an image of the conversation that is not on the CDN.
pub open spec fn placed(messages: Seq<MessageView>, todo: Seq<JobView>) -> bool {
    forall|k: int|
        0 <= k < todo.len() ==> image_at(
            messages,
            (#[trigger] todo[k]).message,
            todo[k].item,
        ) == Some(todo[k].url) && !on_poe_cdn(todo[k].url)
}

/// What one change of a URL does.
proof fn lemma_with_url(messages: Seq<MessageView>, job: JobView, url: Seq<char>)
    ensures
        same_shape(messages, with_url(messages, job, url)),
        forall|m: int, i: int|
            #[trigger] image_at(with_url(messages, job, url), m, i) == (if stands_at(job, m, i)
                && image_at(messages, m, i) is Some {
                Some(url)
            } else {
                image_at(messages, m, i)
            }),
{
}

/// Being the same but for URLs carries over.
proof fn lemma_shape_carries(a: Seq<MessageView>, b: Seq<MessageView>, c: Seq<MessageView>)
    requires
        same_shape(a, b),
        same_shape(b, c),
    ensures
        same_shape(a, c),
{
    assert forall|m: int| 0 <= m < a.len() implies (#[trigger] a[m]).role == c[m].role
        && same_but_urls(a[m].content, c[m].content) by {
        assert(b[m].role == c[m].role);
        match (a[m].content, b[m].content, c[m].content) {
            (ContentView::Multi(x), ContentView::Multi(y), ContentView::Multi(z)) => {
                assert forall|i: int| 0 <= i < x.len() implies (#[trigger] x[i] == z[i] || (
                x[i] is ImageUrl && z[i] is ImageUrl)) by {
                    assert(x[i] == y[i] || (x[i] is ImageUrl && y[i] is ImageUrl));
                    assert(y[i] == z[i] || (y[i] is ImageUrl && z[i] is ImageUrl));
                }
            },
            _ => {},
        }
    }
}

/// The jobs in a message are for its wanted images, and all of them.
proof fn lemma_jobs_in(items: Seq<ItemView>, message: int, data: bool)
    ensures
        forall|k: int|
            #![trigger jobs_in(items, message, data)[k]]
            0 <= k < jobs_in(items, message, data).len() ==> {
                let job = jobs_in(items, message, data)[k];
                job.message == message && 0 <= job.item < items.len() && items[job.item]
                    == ItemView::ImageUrl(job.url) && wanted(job.url, data)
            },
        forall|i: int|
            0 <= i < items.len() && (#[trigger] items[i] matches ItemView::ImageUrl(url) && wanted(
                url,
                data,
            )) ==> has_job(jobs_in(items, message, data), message, i),
    decreases items.len(),
{
    if items.len() > 0 {
        let before = items.drop_last();
        lemma_jobs_in(before, message, data);
        let known = jobs_in(before, message, data);
        let all = jobs_in(items, message, data);
        assert forall|i: int|
            0 <= i < items.len() && (#[trigger] items[i] matches ItemView::ImageUrl(url) && wanted(
                url,
                data,
            )) implies has_job(all, message, i) by {
            if i < before.len() {
                assert(before[i] == items[i]);
                let k = choose|k: int| 0 <= k < known.len() && #[trigger] stands_at(
                    known[k],
                    message,
                    i,
                );
                assert(all[k] == known[k]);
                assert(stands_at(all[k], message, i));
            } else {
                assert(stands_at(all[all.len() - 1], message, i));
            }
        }
        assert forall|k: int|
            #![trigger all[k]]
            0 <= k < all.len() implies all[k].message == message && 0 <= all[k].item < items.len()
            && items[all[k].item] == ItemView::ImageUrl(all[k].url) && wanted(all[k].url, data) by {
            if k < known.len() {
                assert(all[k] == known[k]);
                assert(before[all[k].item] == items[all[k].item]);
            }
        }
    }
}

/// The jobs in a conversation are for its wanted images, and all of them.
proof fn lemma_jobs(messages: Seq<MessageView>, data: bool)
    ensures
        forall|k: int|
            #![trigger jobs(messages, data)[k]]
            0 <= k < jobs(messages, data).len() ==> {
                let job = jobs(messages, data)[k];
                image_at(messages, job.message, job.item) == Some(job.url) && wanted(job.url, data)
            },
        forall|m: int, i: int|
            (#[trigger] image_at(messages, m, i) matches Some(url) && wanted(url, data))
                ==> has_job(jobs(messages, data), m, i),
    decreases messages.len(),
{
    if messages.len() > 0 {
        let before = messages.drop_last();
        let items = parts_of(messages.last().content);
        let last = messages.len() - 1;
        lemma_jobs(before, data);
        lemma_jobs_in(items, last, data);
        let known = jobs(before, data);
        let more = jobs_in(items, last, data);
        let all = jobs(messages, data);
        assert(all == known + more);
        assert forall|k: int| #![trigger all[k]] 0 <= k < all.len() implies image_at(
            messages,
            all[k].message,
            all[k].item,
        ) == Some(all[k].url) && wanted(all[k].url, data) by {
            if k < known.len() {
                assert(all[k] == known[k]);
                assert(image_at(before, all[k].message, all[k].item) == Some(all[k].url));
                assert(before[all[k].message] == messages[all[k].message]);
            } else {
                assert(all[k] == more[k - known.len()]);
            }
        }
        assert forall|m: int, i: int|
            (#[trigger] image_at(messages, m, i) matches Some(url) && wanted(
                url,
                data,
            )) implies has_job(all, m, i) by {
            if m < last {
                assert(before[m] == messages[m]);
                assert(image_at(before, m, i) == image_at(messages, m, i));
                let k = choose|k: int| 0 <= k < known.len() && #[trigger] stands_at(known[k], m, i);
                assert(all[k] == known[k]);
                assert(stands_at(all[k], m, i));
            } else {
                assert(items[i] == parts_of(messages[m].content)[i]);
                let k = choose|k: int| 0 <= k < more.len() && #[trigger] stands_at(more[k], m, i);
                assert(all[known.len() + k] == more[k]);
                assert(stands_at(all[known.len() + k], m, i));
            }
        }
    }
}

/// Every URL is on the CDN.
pub open spec fn all_on_cdn(urls: Seq<Seq<char>>) -> bool {
    forall|k: int| 0 <= k < urls.len() ==> on_poe_cdn(#[trigger] urls[k])
}

/// Every URL that was found is on the CDN.
pub open spec fn found_on_cdn(found: Seq<Option<Seq<char>>>) -> bool {
    forall|k: int|
        0 <= k < found.len() ==> (#[trigger] found[k] matches Some(url) ==> on_poe_cdn(url))
}

/// What the URLs that the cache has do to a conversation.
proof fn lemma_with_found(
    messages: Seq<MessageView>,
    todo: Seq<JobView>,
    found: Seq<Option<Seq<char>>>,
    n: int,
)
    requires
        0 <= n <= todo.len(),
        n <= found.len(),
    ensures
        same_shape(messages, with_found(messages, todo, found, n)),
        forall|m: int, i: int|
            !has_job(todo, m, i) ==> #[trigger] image_at(
                with_found(messages, todo, found, n),
                m,
                i,
            ) == image_at(messages, m, i),
        found_on_cdn(found) ==> {
            &&& forall|m: int, i: int|
                #[trigger] image_at(with_found(messages, todo, found, n), m, i) == image_at(
                    messages,
                    m,
                    i,
                ) || (image_at(with_found(messages, todo, found, n), m, i) matches Some(url)
                    && on_poe_cdn(url))
            &&& forall|k: int|
                #![trigger todo[k]]
                0 <= k < n && found[k] is Some && image_at(messages, todo[k].message, todo[k].item)
                    is Some ==> (image_at(
                    with_found(messages, todo, found, n),
                    todo[k].message,
                    todo[k].item,
                ) matches Some(url) && on_poe_cdn(url))
        },
    decreases n,
{
    if n > 0 {
        lemma_with_found(messages, todo, found, n - 1);
        let before = with_found(messages, todo, found, n - 1);
        let after = with_found(messages, todo, found, n);
        match found[n - 1] {
            Some(url) => {
                lemma_with_url(before, todo[n - 1], url);
                lemma_shape_carries(messages, before, after);
                lemma_images_stay(messages, before);
                assert forall|m: int, i: int| !has_job(todo, m, i) implies #[trigger] image_at(
                    after,
                    m,
                    i,
                ) == image_at(messages, m, i) by {
                    if stands_at(todo[n - 1], m, i) {
                        assert(has_job(todo, m, i));
                    }
                    assert(image_at(before, m, i) == image_at(messages, m, i));
                }
                if found_on_cdn(found) {
                    assert forall|m: int, i: int|
                        #[trigger] image_at(after, m, i) == image_at(messages, m, i) || (image_at(
                            after,
                            m,
                            i,
                        ) matches Some(url) && on_poe_cdn(url)) by {
                        assert(image_at(before, m, i) == image_at(messages, m, i) || (image_at(
                            before,
                            m,
                            i,
                        ) matches Some(url) && on_poe_cdn(url)));
                    }
                    assert forall|k: int|
                        #![trigger todo[k]]
                        0 <= k < n && found[k] is Some && image_at(
                            messages,
                            todo[k].message,
                            todo[k].item,
                        ) is Some implies (image_at(after, todo[k].message, todo[k].item) matches Some(
                        url,
                    ) && on_poe_cdn(url)) by {
                        let m = todo[k].message;
                        let i = todo[k].item;
                        assert(image_at(before, m, i) is Some);
                        if k < n - 1 {
                            assert(image_at(before, m, i) matches Some(url) && on_poe_cdn(url));
                        } else {
                            assert(stands_at(todo[n - 1], m, i));
                        }
                    }
                }
            },
            None => {},
        }
    }
}

/// Conversations of the same shape have images at the same places.
proof fn lemma_images_stay(a: Seq<MessageView>, b: Seq<MessageView>)
    requires
        same_shape(a, b),
    ensures
        forall|m: int, i: int|
            #[trigger] image_at(a, m, i) is Some <==> image_at(b, m, i) is Some,
{
    assert forall|m: int, i: int| #[trigger] image_at(a, m, i) is Some <==> image_at(b, m, i)
        is Some by {
        if 0 <= m < a.len() {
            assert(a[m].role == b[m].role);
            if 0 <= i < parts_of(a[m].content).len() {
                let x = parts_of(a[m].content)[i];
                let y = parts_of(b[m].content)[i];
                assert(x == y || (x is ImageUrl && y is ImageUrl));
            }
        }
    }
}

/// What uploaded URLs do to a conversation.
proof fn lemma_with_uploaded(
    messages: Seq<MessageView>,
    todo: Seq<JobView>,
    urls: Seq<Seq<char>>,
    n: int,
)
    requires
        0 <= n <= todo.len(),
        n <= urls.len(),
    ensures
        same_shape(messages, with_uploaded(messages, todo, urls, n)),
        forall|m: int, i: int|
            !has_job(todo, m, i) ==> #[trigger] image_at(
                with_uploaded(messages, todo, urls, n),
                m,
                i,
            ) == image_at(messages, m, i),
        all_on_cdn(urls) ==> {
            &&& forall|m: int, i: int|
                #[trigger] image_at(with_uploaded(messages, todo, urls, n), m, i) == image_at(
                    messages,
                    m,
                    i,
                ) || (image_at(with_uploaded(messages, todo, urls, n), m, i) matches Some(url)
                    && on_poe_cdn(url))
            &&& forall|k: int|
                #![trigger todo[k]]
                0 <= k < n && image_at(messages, todo[k].message, todo[k].item) is Some ==> (
                image_at(
                    with_uploaded(messages, todo, urls, n),
                    todo[k].message,
                    todo[k].item,
                ) matches Some(url) && on_poe_cdn(url))
        },
    decreases n,
{
    if n > 0 {
        lemma_with_uploaded(messages, todo, urls, n - 1);
        let before = with_uploaded(messages, todo, urls, n - 1);
        let after = with_uploaded(messages, todo, urls, n);
        lemma_with_url(before, todo[n - 1], urls[n - 1]);
        lemma_shape_carries(messages, before, after);
        lemma_images_stay(messages, before);
        assert forall|m: int, i: int| !has_job(todo, m, i) implies #[trigger] image_at(after, m, i)
            == image_at(messages, m, i) by {
            if stands_at(todo[n - 1], m, i) {
                assert(has_job(todo, m, i));
            }
            assert(image_at(before, m, i) == image_at(messages, m, i));
        }
        if all_on_cdn(urls) {
            assert forall|m: int, i: int|
                #[trigger] image_at(after, m, i) == image_at(messages, m, i) || (image_at(
                    after,
                    m,
                    i,
                ) matches Some(url) && on_poe_cdn(url)) by {
                assert(image_at(before, m, i) == image_at(messages, m, i) || (image_at(
                    before,
                    m,
                    i,
                ) matches Some(url) && on_poe_cdn(url)));
            }
            assert forall|k: int|
                #![trigger todo[k]]
                0 <= k < n && image_at(messages, todo[k].message, todo[k].item) is Some implies (
            image_at(after, todo[k].message, todo[k].item) matches Some(url) && on_poe_cdn(url)) by {
                let m = todo[k].message;
                let i = todo[k].item;
                assert(image_at(before, m, i) is Some);
                if k < n - 1 {
                    assert(image_at(before, m, i) matches Some(url) && on_poe_cdn(url));
                } else {
                    assert(stands_at(todo[n - 1], m, i));
                }
            }
        }
    }
}

/// The jobs that are left are among the jobs, and all of those for which the
/// cache has nothing are left.
proof fn lemma_missed(todo: Seq<JobView>, found: Seq<Option<Seq<char>>>, n: int)
    requires
        0 <= n <= todo.len(),
    ensures
        forall|j: int|
            0 <= j < missed(todo, found, n).len() ==> todo.contains(
                #[trigger] missed(todo, found, n)[j],
            ),
        forall|k: int|
            #![trigger todo[k]]
            0 <= k < n && found[k] is None ==> has_job(
                missed(todo, found, n),
                todo[k].message,
                todo[k].item,
            ),
    decreases n,
{
    if n > 0 {
        lemma_missed(todo, found, n - 1);
        let before = missed(todo, found, n - 1);
        let after = missed(todo, found, n);
        assert forall|k: int| #![trigger todo[k]] 0 <= k < n && found[k] is None implies has_job(
            after,
            todo[k].message,
            todo[k].item,
        ) by {
            let m = todo[k].message;
            let i = todo[k].item;
            if k < n - 1 {
                let j = choose|j: int| 0 <= j < before.len() && #[trigger] stands_at(
                    before[j],
                    m,
                    i,
                );
                assert(after[j] == before[j]);
                assert(stands_at(after[j], m, i));
            } else {
                assert(stands_at(after[after.len() - 1], m, i));
            }
        }
    }
}

/// An upload so far: where the task stands, what is to be done next, the paths
/// of the files that were written, and of those whose removal was asked for.
#[verifier::ext_equal]
pub struct RunView {
    /// Where the task stands.
    pub task: TaskView,
    /// What is to be done next.
    pub action: ImageActionView,
    /// The files that were written.
    pub written: Seq<Seq<char>>,
    /// The files whose removal was asked for.
    pub removed: Seq<Seq<char>>,
}

/// The files whose removal an action asks for.
pub open spec fn removed_by(action: ImageActionView) -> Seq<Seq<char>> {
    match action {
        ImageActionView::RemoveFiles(paths) => paths,
        _ => Seq::empty(),
    }
}

/// The file that an event reports as written.
pub open spec fn written_in(event: ImageEventView) -> Seq<Seq<char>> {
    match event {
        ImageEventView::Written(Ok(path)) => seq![path],
        _ => Seq::empty(),
    }
}

/// An upload after one more event.
pub open spec fn carried_on(run: RunView, event: ImageEventView, random: Seq<char>) -> RunView {
    let (task, action) = after_image_event(run.task, event, random);
    RunView {
        task,
        action,
        written: run.written + written_in(event),
        removed: run.removed + removed_by(action),
    }
}

/// An upload after events, each with the random part of the name of the next
/// temporary file.
pub open spec fn image_run(
    messages: Seq<MessageView>,
    events: Seq<(ImageEventView, Seq<char>)>,
) -> RunView
    decreases events.len(),
{
    if events.len() == 0 {
        let (task, action) = started(messages);
        RunView { task, action, written: Seq::empty(), removed: removed_by(action) }
    } else {
        carried_on(
            image_run(messages, events.drop_last()),
            events.last().0,
            events.last().1,
        )
    }
}

/// Every event is one that the task waits for when it comes.
pub open spec fn in_order(
    messages: Seq<MessageView>,
    events: Seq<(ImageEventView, Seq<char>)>,
) -> bool
    decreases events.len(),
{
    events.len() == 0 || (in_order(messages, events.drop_last()) && image_run(
        messages,
        events.drop_last(),
    ).task.expects(events.last().0))
}

/// How the files stand in each phase.
spec fn files_kept(run: RunView) -> bool {
    match run.task.phase {
        PhaseView::UrlLookup | PhaseView::UrlUpload | PhaseView::UrlStore | PhaseView::HashLookup =>
            run.task.files.len() == 0 && run.written.len() == 0 && run.removed.len() == 0,
        PhaseView::Writing | PhaseView::FileUpload | PhaseView::HashStore => run.written == paths(
            run.task.files,
        ) && run.removed.len() == 0,
        PhaseView::Removing(_) => run.written == paths(run.task.files) && run.removed == paths(
            run.task.files,
        ),
        PhaseView::Over => run.written == run.removed,
    }
}

/// Every step keeps account of the files.
proof fn lemma_files_step(run: RunView, event: ImageEventView, random: Seq<char>)
    requires
        files_kept(run),
        run.task.expects(event),
    ensures
        files_kept(carried_on(run, event, random)),
{
    let next = carried_on(run, event, random);
    let none = Seq::<Seq<char>>::empty();
    assert(run.written + none =~= run.written);
    assert(run.removed + none =~= run.removed);
    assert(run.removed.len() == 0 ==> run.removed + paths(run.task.files) =~= paths(
        run.task.files,
    ));
    assert(run.removed.len() == 0 ==> run.removed + paths(next.task.files) =~= paths(
        next.task.files,
    ));
    assert(run.task.files.len() == 0 ==> paths(run.task.files) =~= none);
    if let ImageEventView::Written(Ok(path)) = event {
        assert(paths(next.task.files) =~= paths(run.task.files) + seq![path]);
    }
    if run.written.len() == 0 && run.removed.len() == 0 {
        assert(run.written =~= run.removed);
        assert(run.written =~= none);
    }
}

/// When the upload is over, every temporary file that was written has been
/// removed, each once, whether the upload went well or not.
pub proof fn no_file_is_left(messages: Seq<MessageView>, events: Seq<(ImageEventView, Seq<char>)>)
    requires
        in_order(messages, events),
        image_run(messages, events).task.phase is Over,
    ensures
        image_run(messages, events).removed == image_run(messages, events).written,
{
    lemma_files(messages, events);
}

/// The account of the files holds all along.
proof fn lemma_files(messages: Seq<MessageView>, events: Seq<(ImageEventView, Seq<char>)>)
    requires
        in_order(messages, events),
    ensures
        files_kept(image_run(messages, events)),
    decreases events.len(),
{
    if events.len() == 0 {
        let run = image_run(messages, events);
        assert(run.written =~= run.removed);
    } else {
        lemma_files(messages, events.drop_last());
        lemma_files_step(
            image_run(messages, events.drop_last()),
            events.last().0,
            events.last().1,
        );
    }
}

/// An image that holds its data is not on the CDN.
proof fn lemma_data_is_elsewhere(url: Seq<char>)
    ensures
        is_data(url) ==> !on_poe_cdn(url),
{
    reveal_strlit("data:");
    reveal_strlit("https://pfst.cf2.poecdn.net");
    if is_data(url) && on_poe_cdn(url) {
        assert(url.take("data:"@.len() as int)[0] == url[0]);
        assert(url.take("https://pfst.cf2.poecdn.net"@.len() as int)[0] == url[0]);
    }
}

/// The jobs in a conversation are for images that are not on the CDN.
proof fn lemma_placed(messages: Seq<MessageView>, data: bool)
    ensures
        placed(messages, jobs(messages, data)),
{
    lemma_jobs(messages, data);
    let all = jobs(messages, data);
    assert forall|k: int| 0 <= k < all.len() implies image_at(
        messages,
        (#[trigger] all[k]).message,
        all[k].item,
    ) == Some(all[k].url) && !on_poe_cdn(all[k].url) by {
        lemma_data_is_elsewhere(all[k].url);
    }
}

/// A change at the places of jobs leaves what is on the CDN alone.
proof fn lemma_uploads_only(
    start: Seq<MessageView>,
    before: Seq<MessageView>,
    after: Seq<MessageView>,
    todo: Seq<JobView>,
)
    requires
        same_but_uploads(start, before),
        placed(start, todo),
        same_shape(before, after),
        forall|m: int, i: int|
            !has_job(todo, m, i) ==> #[trigger] image_at(after, m, i) == image_at(before, m, i),
    ensures
        same_but_uploads(start, after),
{
    lemma_shape_carries(start, before, after);
    assert forall|m: int, i: int|
        (#[trigger] image_at(start, m, i) matches Some(url) && on_poe_cdn(url)) implies image_at(
        after,
        m,
        i,
    ) == image_at(start, m, i) by {
        if has_job(todo, m, i) {
            let k = choose|k: int| 0 <= k < todo.len() && #[trigger] stands_at(todo[k], m, i);
            assert(image_at(start, todo[k].message, todo[k].item) == Some(todo[k].url));
        }
        assert(image_at(after, m, i) == image_at(before, m, i));
    }
}

/// What is kept of the conversation in each phase.
spec fn conversation_kept(start: Seq<MessageView>, run: RunView) -> bool {
    if run.task.phase is Over {
        if run.action is Finish {
            exists|x: Seq<MessageView>|
                same_but_uploads(start, x) && run.task.messages == #[trigger] with_answer_images(x)
        } else {
            same_but_uploads(start, run.task.messages)
        }
    } else {
        &&& same_but_uploads(start, run.task.messages)
        &&& placed(start, run.task.todo)
        &&& placed(start, run.task.data)
        &&& !(run.action is Finish)
    }
}

/// Every step keeps what is to be kept of the conversation.
proof fn lemma_conversation_step(
    start: Seq<MessageView>,
    run: RunView,
    event: ImageEventView,
    random: Seq<char>,
)
    requires
        conversation_kept(start, run),
        run.task.expects(event),
    ensures
        conversation_kept(start, carried_on(run, event, random)),
{
    let t = run.task;
    match event {
        ImageEventView::Found(found) => {
            let n = t.todo.len() as int;
            let x = with_found(t.messages, t.todo, found, n);
            let left = missed(t.todo, found, n);
            lemma_with_found(t.messages, t.todo, found, n);
            lemma_uploads_only(start, t.messages, x, t.todo);
            lemma_missed(t.todo, found, n);
            assert(placed(start, left)) by {
                assert forall|k: int| 0 <= k < left.len() implies image_at(
                    start,
                    (#[trigger] left[k]).message,
                    left[k].item,
                ) == Some(left[k].url) && !on_poe_cdn(left[k].url) by {
                    let j = choose|j: int| 0 <= j < t.todo.len() && t.todo[j] == left[k];
                    assert(t.todo.contains(left[k]));
                    assert(image_at(start, t.todo[j].message, t.todo[j].item) == Some(
                        t.todo[j].url,
                    ));
                }
            }
            assert(with_answer_images(x) == with_answer_images(x));
        },
        ImageEventView::Uploaded(Ok(urls)) => {
            let n = served(t.todo, urls);
            let x = with_uploaded(t.messages, t.todo, urls, n);
            lemma_with_uploaded(t.messages, t.todo, urls, n);
            lemma_uploads_only(start, t.messages, x, t.todo);
        },
        _ => {
            assert(with_answer_images(t.messages) == with_answer_images(t.messages));
        },
    }
}

/// What is kept of the conversation holds all along.
proof fn lemma_conversation(messages: Seq<MessageView>, events: Seq<(ImageEventView, Seq<char>)>)
    requires
        in_order(messages, events),
    ensures
        conversation_kept(messages, image_run(messages, events)),
    decreases events.len(),
{
    if events.len() == 0 {
        lemma_placed(messages, false);
        lemma_placed(messages, true);
        assert(same_but_uploads(messages, messages));
        assert(with_answer_images(messages) == with_answer_images(messages));
    } else {
        lemma_conversation(messages, events.drop_last());
        lemma_conversation_step(
            messages,
            image_run(messages, events.drop_last()),
            events.last().0,
            events.last().1,
        );
    }
}

/// The upload changes nothing in the conversation but the URLs of images that
/// are not on the CDN, and it shows the images of the last answer in the last
/// user message when it ends well.
pub proof fn only_uploads_change(
    messages: Seq<MessageView>,
    events: Seq<(ImageEventView, Seq<char>)>,
)
    requires
        in_order(messages, events),
    ensures
        image_run(messages, events).action is Finish ==> exists|x: Seq<MessageView>|
            same_but_uploads(messages, x) && image_run(messages, events).task.messages
                == #[trigger] with_answer_images(x),
        !(image_run(messages, events).action is Finish) ==> same_but_uploads(
            messages,
            image_run(messages, events).task.messages,
        ),
{
    lemma_conversation(messages, events);
}

/// The cache and Poe give URLs on the CDN, and Poe gives one for each upload.
pub open spec fn served_in_full(t: TaskView, event: ImageEventView) -> bool {
    match event {
        ImageEventView::Found(found) => found_on_cdn(found),
        ImageEventView::Uploaded(Ok(urls)) => all_on_cdn(urls) && urls.len() >= t.todo.len(),
        _ => true,
    }
}

/// The cache and Poe give URLs on the CDN all along.
pub open spec fn all_served(
    messages: Seq<MessageView>,
    events: Seq<(ImageEventView, Seq<char>)>,
) -> bool
    decreases events.len(),
{
    events.len() == 0 || (all_served(messages, events.drop_last()) && served_in_full(
        image_run(messages, events.drop_last()).task,
        events.last().0,
    ))
}

/// Every image is on the CDN.
pub open spec fn all_images_on_cdn(messages: Seq<MessageView>) -> bool {
    forall|m: int, i: int|
        #[trigger] image_at(messages, m, i) matches Some(url) ==> on_poe_cdn(url)
}

/// Every image that is not on the CDN has a job in one of two lists.
spec fn covered(messages: Seq<MessageView>, todo: Seq<JobView>, data: Seq<JobView>) -> bool {
    forall|m: int, i: int|
        (#[trigger] image_at(messages, m, i) matches Some(url) && !on_poe_cdn(url)) ==> has_job(
            todo,
            m,
            i,
        ) || has_job(data, m, i)
}

/// Which images may still be elsewhere in each phase.
spec fn images_covered(run: RunView) -> bool {
    let t = run.task;
    match t.phase {
        PhaseView::UrlLookup | PhaseView::UrlUpload => covered(t.messages, t.todo, t.data),
        PhaseView::UrlStore => covered(t.messages, t.data, t.data),
        PhaseView::HashLookup | PhaseView::Writing | PhaseView::FileUpload => covered(
            t.messages,
            t.todo,
            t.todo,
        ),
        PhaseView::HashStore | PhaseView::Removing(None) => all_images_on_cdn(t.messages),
        PhaseView::Removing(Some(_)) => true,
        PhaseView::Over => run.action is Finish ==> all_images_on_cdn(t.messages),
    }
}

/// Showing the images of the last answer adds images on the CDN only.
proof fn lemma_answer_images(messages: Seq<MessageView>)
    requires
        all_images_on_cdn(messages),
    ensures
        all_images_on_cdn(with_answer_images(messages)),
{
    let after = with_answer_images(messages);
    if messages.len() >= 2 {
        match (last_of(messages, "assistant"@), last_of(messages, "user"@)) {
            (Some(bot), Some(user)) => {
                let urls = message_urls(messages[bot]);
                extracted_urls_are_on_the_cdn(messages[bot]);
                lemma_last_of(messages, "user"@);
                if urls.len() > 0 {
                    let items = parts_of(messages[user].content);
                    let more = parts_of(after[user].content);
                    assert forall|m: int, i: int|
                        #[trigger] image_at(after, m, i) matches Some(url) implies on_poe_cdn(
                        image_at(after, m, i)->0,
                    ) by {
                        if m == user {
                            match messages[user].content {
                                ContentView::Text(text) => {
                                    assert(more == seq![ItemView::Text(text)] + image_items(urls));
                                    assert(i >= 1 && more[i] == ItemView::ImageUrl(urls[i - 1]));
                                },
                                ContentView::Multi(_) => {
                                    assert(more == items + image_items(urls));
                                    if i < items.len() {
                                        assert(image_at(messages, m, i) == image_at(after, m, i));
                                    } else {
                                        assert(more[i] == ItemView::ImageUrl(
                                            urls[i - items.len()],
                                        ));
                                    }
                                },
                            }
                        } else {
                            assert(image_at(messages, m, i) == image_at(after, m, i));
                        }
                    }
                }
            },
            _ => {},
        }
    }
}

/// The last message of a role is a message.
proof fn lemma_last_of(messages: Seq<MessageView>, role: Seq<char>)
    ensures
        last_of(messages, role) matches Some(i) ==> 0 <= i < messages.len() && messages[i].role
            == role,
    decreases messages.len(),
{
    if messages.len() > 0 {
        lemma_last_of(messages.drop_last(), role);
    }
}

/// After the cache was asked, what is left covers what is still elsewhere.
proof fn lemma_covered_found(t: TaskView, found: Seq<Option<Seq<char>>>, data: Seq<JobView>)
    requires
        covered(t.messages, t.todo, data),
        found.len() == t.todo.len(),
        found_on_cdn(found),
    ensures
        covered(
            with_found(t.messages, t.todo, found, t.todo.len() as int),
            missed(t.todo, found, t.todo.len() as int),
            data,
        ),
        data == t.todo ==> covered(
            with_found(t.messages, t.todo, found, t.todo.len() as int),
            missed(t.todo, found, t.todo.len() as int),
            missed(t.todo, found, t.todo.len() as int),
        ),
{
    let n = t.todo.len() as int;
    let x = with_found(t.messages, t.todo, found, n);
    let left = missed(t.todo, found, n);
    lemma_with_found(t.messages, t.todo, found, n);
    lemma_missed(t.todo, found, n);
    assert forall|m: int, i: int|
        (#[trigger] image_at(x, m, i) matches Some(url) && !on_poe_cdn(url)) && has_job(
            t.todo,
            m,
            i,
        ) implies has_job(left, m, i) by {
        assert(image_at(t.messages, m, i) == image_at(x, m, i));
        let k = choose|k: int| 0 <= k < t.todo.len() && #[trigger] stands_at(t.todo[k], m, i);
        assert(t.todo[k].message == m && t.todo[k].item == i);
        if found[k] is Some {
            assert(image_at(x, t.todo[k].message, t.todo[k].item) matches Some(url) && on_poe_cdn(
                url,
            ));
        }
    }
    assert forall|m: int, i: int|
        (#[trigger] image_at(x, m, i) matches Some(url) && !on_poe_cdn(url)) implies has_job(
        left,
        m,
        i,
    ) || has_job(data, m, i) by {
        assert(image_at(t.messages, m, i) == image_at(x, m, i));
    }
}

/// After an upload that was served in full, nothing of it is elsewhere.
proof fn lemma_covered_upload(t: TaskView, urls: Seq<Seq<char>>, data: Seq<JobView>)
    requires
        covered(t.messages, t.todo, data),
        all_on_cdn(urls),
        urls.len() >= t.todo.len(),
    ensures
        covered(with_uploaded(t.messages, t.todo, urls, served(t.todo, urls)), data, data),
        data == t.todo ==> all_images_on_cdn(
            with_uploaded(t.messages, t.todo, urls, served(t.todo, urls)),
        ),
{
    let n = served(t.todo, urls);
    let x = with_uploaded(t.messages, t.todo, urls, n);
    lemma_with_uploaded(t.messages, t.todo, urls, n);
    assert forall|m: int, i: int|
        (#[trigger] image_at(x, m, i) matches Some(url) && !on_poe_cdn(url)) implies !has_job(
        t.todo,
        m,
        i,
    ) && has_job(data, m, i) by {
        assert(image_at(t.messages, m, i) == image_at(x, m, i));
        if has_job(t.todo, m, i) {
            let k = choose|k: int| 0 <= k < t.todo.len() && #[trigger] stands_at(t.todo[k], m, i);
            assert(t.todo[k].message == m && t.todo[k].item == i);
            assert(image_at(x, t.todo[k].message, t.todo[k].item) matches Some(url) && on_poe_cdn(
                url,
            ));
        }
    }
}

/// Jobs under other keys cover the same images.
proof fn lemma_covered_by_hash(messages: Seq<MessageView>, data: Seq<JobView>)
    requires
        covered(messages, data, data),
    ensures
        covered(messages, by_hash(data), by_hash(data)),
{
    assert forall|m: int, i: int|
        (#[trigger] image_at(messages, m, i) matches Some(url) && !on_poe_cdn(url)) implies has_job(
        by_hash(data),
        m,
        i,
    ) by {
        assert(has_job(data, m, i));
        let k = choose|k: int| 0 <= k < data.len() && #[trigger] stands_at(data[k], m, i);
        assert(stands_at(by_hash(data)[k], m, i));
    }
}

/// A list of no jobs covers nothing.
proof fn lemma_covered_by_none(messages: Seq<MessageView>, todo: Seq<JobView>, data: Seq<JobView>)
    requires
        covered(messages, todo, data),
        todo.len() == 0,
    ensures
        covered(messages, data, data),
        data.len() == 0 ==> all_images_on_cdn(messages),
{
}

/// Every step keeps account of the images that are elsewhere.
proof fn lemma_images_step(run: RunView, event: ImageEventView, random: Seq<char>)
    requires
        images_covered(run),
        run.task.expects(event),
        served_in_full(run.task, event),
    ensures
        images_covered(carried_on(run, event, random)),
{
    let t = run.task;
    match event {
        ImageEventView::Found(found) => {
            let n = t.todo.len() as int;
            let x = with_found(t.messages, t.todo, found, n);
            let left = missed(t.todo, found, n);
            if t.phase is UrlLookup {
                lemma_covered_found(t, found, t.data);
                if left.len() == 0 {
                    lemma_covered_by_none(x, left, t.data);
                    lemma_covered_by_hash(x, t.data);
                    if t.data.len() == 0 {
                        lemma_answer_images(x);
                    }
                }
            } else {
                lemma_covered_found(t, found, t.todo);
                if left.len() == 0 {
                    lemma_covered_by_none(x, left, left);
                    lemma_answer_images(x);
                }
            }
        },
        ImageEventView::Uploaded(Ok(urls)) => {
            if t.phase is UrlUpload {
                lemma_covered_upload(t, urls, t.data);
            } else {
                lemma_covered_upload(t, urls, t.todo);
            }
        },
        ImageEventView::Stored => {
            if t.phase is UrlStore {
                lemma_covered_by_hash(t.messages, t.data);
                if t.data.len() == 0 {
                    lemma_covered_by_none(t.messages, t.data, t.data);
                    lemma_answer_images(t.messages);
                }
            }
        },
        ImageEventView::Removed => {
            if t.phase == PhaseView::Removing(None) {
                lemma_answer_images(t.messages);
            }
        },
        _ => {},
    }
}

/// The account of the images that are elsewhere holds all along.
proof fn lemma_images(messages: Seq<MessageView>, events: Seq<(ImageEventView, Seq<char>)>)
    requires
        in_order(messages, events),
        all_served(messages, events),
    ensures
        images_covered(image_run(messages, events)),
    decreases events.len(),
{
    if events.len() == 0 {
        let external = jobs(messages, false);
        let data = jobs(messages, true);
        lemma_jobs(messages, false);
        lemma_jobs(messages, true);
        assert(covered(messages, external, data)) by {
            assert forall|m: int, i: int|
                (#[trigger] image_at(messages, m, i) matches Some(url) && !on_poe_cdn(
                    url,
                )) implies has_job(external, m, i) || has_job(data, m, i) by {
                let url = image_at(messages, m, i)->0;
                assert(wanted(url, false) || wanted(url, true));
            }
        }
        if external.len() == 0 {
            lemma_covered_by_none(messages, external, data);
            lemma_covered_by_hash(messages, data);
            if data.len() == 0 {
                lemma_answer_images(messages);
            }
        }
    } else {
        lemma_images(messages, events.drop_last());
        lemma_images_step(
            image_run(messages, events.drop_last()),
            events.last().0,
            events.last().1,
        );
    }
}

/// When the cache and Poe give URLs on the CDN, and Poe gives one for each
/// upload, an upload that ends well leaves every image on the CDN.
pub proof fn every_image_ends_on_the_cdn(
    messages: Seq<MessageView>,
    events: Seq<(ImageEventView, Seq<char>)>,
)
    requires
        in_order(messages, events),
        all_served(messages, events),
        image_run(messages, events).action is Finish,
    ensures
        all_images_on_cdn(image_run(messages, events).task.messages),
{
    lemma_images(messages, events);
    lemma_conversation(messages, events);
}

/// A bound on the events that a task still waits for.
pub open spec fn events_left(t: TaskView) -> int {
    match t.phase {
        PhaseView::UrlLookup => t.data.len() as int + 9,
        PhaseView::UrlUpload => t.data.len() as int + 8,
        PhaseView::UrlStore => t.data.len() as int + 7,
        PhaseView::HashLookup => t.todo.len() as int + 6,
        PhaseView::Writing => t.todo.len() - t.files.len() + 4,
        PhaseView::FileUpload => 4,
        PhaseView::HashStore => 3,
        PhaseView::Removing(_) => 2,
        PhaseView::Over => 0,
    }
}

/// Fewer jobs are left than there were.
proof fn lemma_fewer_missed(todo: Seq<JobView>, found: Seq<Option<Seq<char>>>, n: int)
    requires
        0 <= n,
    ensures
        missed(todo, found, n).len() <= n,
    decreases n,
{
    if n > 0 {
        lemma_fewer_missed(todo, found, n - 1);
    }
}

/// Every upload comes to an end: each event brings it closer, and it waits for
/// none when it is over.
pub proof fn every_upload_ends(t: TaskView, event: ImageEventView, random: Seq<char>)
    requires
        t.wf(),
        t.expects(event),
    ensures
        0 <= events_left(after_image_event(t, event, random).0) < events_left(t),
        !(t.phase is Over),
{
    if let ImageEventView::Found(found) = event {
        lemma_fewer_missed(t.todo, found, t.todo.len() as int);
    }
}

} // verus!
