use poe2openai::data_url::hash_base64_content;
use poe2openai::image_task::{
    can_start, process_message_images, ImageAction, ImageEvent, ImageTask, LocalFile, Phase,
    EXTERNAL_SIZE,
};
use poe2openai::images::{
    attach_images, can_hash_jobs, collect_jobs, hash_jobs, show_answer_images, show_images,
    CacheEntry,
};
use poe2openai::types::{ImageUrlContent, Message, OpenAiContent, OpenAiContentItem};

const CDN: &str = "https://pfst.cf2.poecdn.net/";

fn text(s: &str) -> OpenAiContentItem {
    OpenAiContentItem::Text { text: s.to_string() }
}

fn image(s: &str) -> OpenAiContentItem {
    OpenAiContentItem::ImageUrl { image_url: ImageUrlContent { url: s.to_string() } }
}

fn multi(role: &str, items: Vec<OpenAiContentItem>) -> Message {
    Message { role: role.to_string(), content: OpenAiContent::Multi(items) }
}

fn plain(role: &str, s: &str) -> Message {
    Message { role: role.to_string(), content: OpenAiContent::Text(s.to_string()) }
}

fn cdn(s: &str) -> String {
    format!("{}{}", CDN, s)
}

fn strings(list: &[&str]) -> Vec<String> {
    list.iter().map(|s| s.to_string()).collect()
}

const PNG: &str = "data:image/png;base64,AAAA";
const GIF: &str = "data:image/gif;base64,BBBB";
const BAD: &str = "data:image/gif;base64,B";

#[test]
fn jobs_are_collected_by_sort() {
    let messages = vec![
        plain("user", "x"),
        multi("user", vec![text("t"), image("https://e/1"), image(PNG), image(&cdn("a"))]),
        multi("user", vec![image(GIF), image("https://e/2")]),
    ];
    let external = collect_jobs(&messages, false);
    assert_eq!(external.len(), 2);
    assert_eq!((external[0].message, external[0].item), (1, 1));
    assert_eq!((external[0].url.as_str(), external[0].key.as_str()), ("https://e/1", "https://e/1"));
    assert_eq!((external[1].message, external[1].item), (2, 1));
    let data = collect_jobs(&messages, true);
    assert_eq!(data.len(), 2);
    assert_eq!((data[0].message, data[0].item, data[0].url.as_str()), (1, 2, PNG));
    assert_eq!(data[0].key, PNG);
    let hashed = hash_jobs(&data);
    assert_eq!((hashed[0].key.as_str(), hashed[0].url.as_str()), (hash_base64_content(PNG).as_str(), PNG));
    assert_eq!((hashed[1].message, hashed[1].item), (2, 0));
    assert_eq!((data[1].message, data[1].item), (2, 0));
    assert!(can_hash_jobs(&data));
}

fn odd() -> String {
    format!("data:x;base64,a{}", "é".repeat(600))
}

#[test]
fn data_that_cannot_be_hashed_are_recognised() {
    assert!(!can_start(&vec![multi("user", vec![text("t"), image(&odd())])]));
    assert!(can_start(&vec![multi("user", vec![text(&odd())])]));
    assert!(can_start(&vec![]));
    assert!(can_start(&vec![multi("user", vec![image("https://e/1"), image(&odd())])]));
}

#[test]
fn external_urls_come_before_data_that_cannot_be_hashed() {
    let messages = vec![multi("user", vec![image("https://e/1"), image(&odd())])];
    let (mut task, action) = ImageTask::start(messages);
    assert_eq!(action, ImageAction::LookUpUrls(strings(&["https://e/1"])));
    assert!(!task.accepts(&ImageEvent::Found(vec![Some(cdn("1"))])));
    assert!(task.accepts(&ImageEvent::Found(vec![None])));
    task.proceed(ImageEvent::Found(vec![None]), "R");
    let action = task.proceed(ImageEvent::Uploaded(Err("no".to_string())), "R");
    assert_eq!(action, ImageAction::Fail("Failed to upload external URL: no".to_string()));
}

#[test]
fn only_fitting_events_are_accepted() {
    let messages = vec![multi("user", vec![image("https://e/1"), image(PNG)])];
    let (mut task, _) = ImageTask::start(messages);
    assert!(!task.accepts(&ImageEvent::Found(vec![])));
    assert!(!task.accepts(&ImageEvent::Stored));
    assert!(task.accepts(&ImageEvent::Found(vec![Some(cdn("1"))])));
    task.proceed(ImageEvent::Found(vec![None]), "R");
    assert!(task.accepts(&ImageEvent::Uploaded(Ok(vec![cdn("1"), cdn("2")]))));
    task.proceed(ImageEvent::Uploaded(Ok(vec![cdn("1")])), "R");
    assert!(task.accepts(&ImageEvent::Stored));
    task.proceed(ImageEvent::Stored, "R");
    task.proceed(ImageEvent::Found(vec![None]), "R");
    assert!(task.accepts(&ImageEvent::Written(Err("x".to_string()))));
    assert!(!task.accepts(&ImageEvent::Removed));
    task.proceed(ImageEvent::Written(Ok("/t".to_string())), "R");
    assert!(!task.accepts(&ImageEvent::Uploaded(Ok(vec![cdn("1"), cdn("2")]))));
    assert!(task.accepts(&ImageEvent::Uploaded(Ok(vec![]))));
    assert!(task.accepts(&ImageEvent::Uploaded(Err("x".to_string()))));
    task.proceed(ImageEvent::Uploaded(Err("x".to_string())), "R");
    assert!(task.accepts(&ImageEvent::Removed));
}

#[test]
fn a_conversation_without_images_is_finished_at_once() {
    let (task, action) = ImageTask::start(vec![plain("user", "hi")]);
    assert_eq!(action, ImageAction::Finish);
    assert_eq!(task.phase, Phase::Over);
    assert_eq!(task.messages, vec![plain("user", "hi")]);
}

#[test]
fn every_image_ends_on_the_cdn() {
    let messages = vec![multi(
        "user",
        vec![image("https://e/1"), image(PNG), image("https://e/2"), image(GIF), image(&cdn("k"))],
    )];
    let (mut task, action) = ImageTask::start(messages);
    assert_eq!(action, ImageAction::LookUpUrls(strings(&["https://e/1", "https://e/2"])));
    let action = task.proceed(ImageEvent::Found(vec![Some(cdn("1")), None]), "R");
    assert_eq!(action, ImageAction::UploadUrls(strings(&["https://e/2"])));
    let action = task.proceed(ImageEvent::Uploaded(Ok(vec![cdn("2")])), "R");
    let entry = CacheEntry {
        key: "https://e/2".to_string(),
        poe_url: cdn("2"),
        source: "https://e/2".to_string(),
    };
    assert_eq!(action, ImageAction::StoreUrls(vec![entry], EXTERNAL_SIZE));
    assert_eq!(EXTERNAL_SIZE, 1024 * 1024);
    let action = task.proceed(ImageEvent::Stored, "R");
    let hashes = vec![hash_base64_content(PNG), hash_base64_content(GIF)];
    assert_eq!(action, ImageAction::LookUpHashes(hashes.clone()));
    let action = task.proceed(ImageEvent::Found(vec![None, None]), "R1");
    match &action {
        ImageAction::WriteFile(file) => {
            assert_eq!((file.name.as_str(), &file.contents), ("poe2openai_R1.png", &vec![0, 0, 0]))
        }
        other => panic!("{:?}", other),
    }
    let action = task.proceed(ImageEvent::Written(Ok("/t/1".to_string())), "R2");
    match &action {
        ImageAction::WriteFile(file) => assert_eq!(file.name, "poe2openai_R2.gif"),
        other => panic!("{:?}", other),
    }
    let action = task.proceed(ImageEvent::Written(Ok("/t/2".to_string())), "R3");
    let files = vec![
        LocalFile { path: "/t/1".to_string(), mime_type: Some("image/png".to_string()) },
        LocalFile { path: "/t/2".to_string(), mime_type: Some("image/gif".to_string()) },
    ];
    assert_eq!(action, ImageAction::UploadFiles(files));
    let action = task.proceed(ImageEvent::Uploaded(Ok(vec![cdn("3"), cdn("4")])), "R");
    match &action {
        ImageAction::StoreHashes(entries) => {
            assert_eq!(entries.len(), 2);
            assert_eq!((&entries[1].key, &entries[1].poe_url), (&hashes[1], &cdn("4")));
            assert_eq!(entries[1].source, GIF);
        }
        other => panic!("{:?}", other),
    }
    let action = task.proceed(ImageEvent::Stored, "R");
    assert_eq!(action, ImageAction::RemoveFiles(strings(&["/t/1", "/t/2"])));
    assert_eq!(task.proceed(ImageEvent::Removed, "R"), ImageAction::Finish);
    assert_eq!(
        task.messages,
        vec![multi(
            "user",
            vec![image(&cdn("1")), image(&cdn("3")), image(&cdn("2")), image(&cdn("4")), image(&cdn("k"))],
        )]
    );
}

#[test]
fn a_failed_upload_of_urls_fails_at_once() {
    let (mut task, _) = ImageTask::start(vec![multi("user", vec![image("https://e/1")])]);
    task.proceed(ImageEvent::Found(vec![None]), "R");
    let action = task.proceed(ImageEvent::Uploaded(Err("no".to_string())), "R");
    assert_eq!(action, ImageAction::Fail("Failed to upload external URL: no".to_string()));
    assert_eq!(task.phase, Phase::Over);
}

#[test]
fn a_failed_upload_of_files_removes_them_first() {
    let (mut task, _) = ImageTask::start(vec![multi("user", vec![image(PNG)])]);
    task.proceed(ImageEvent::Found(vec![None]), "R");
    task.proceed(ImageEvent::Written(Ok("/t/1".to_string())), "R");
    let action = task.proceed(ImageEvent::Uploaded(Err("no".to_string())), "R");
    assert_eq!(action, ImageAction::RemoveFiles(strings(&["/t/1"])));
    let action = task.proceed(ImageEvent::Removed, "R");
    assert_eq!(action, ImageAction::Fail("Failed to upload temporary file: no".to_string()));
}

#[test]
fn a_file_that_cannot_be_written_removes_the_others() {
    let (mut task, _) = ImageTask::start(vec![multi("user", vec![image(PNG), image(GIF)])]);
    task.proceed(ImageEvent::Found(vec![None, None]), "R");
    task.proceed(ImageEvent::Written(Ok("/t/1".to_string())), "R");
    let action = task.proceed(ImageEvent::Written(Err("full".to_string())), "R");
    assert_eq!(action, ImageAction::RemoveFiles(strings(&["/t/1"])));
    assert_eq!(
        task.proceed(ImageEvent::Removed, "R"),
        ImageAction::Fail(
            "Failed to process data URL: Failed to write to temporary file: full".to_string()
        )
    );
}

#[test]
fn data_that_cannot_be_decoded_remove_the_files() {
    let (mut task, _) = ImageTask::start(vec![multi("user", vec![image(PNG), image(BAD)])]);
    task.proceed(ImageEvent::Found(vec![None, None]), "R");
    let action = task.proceed(ImageEvent::Written(Ok("/t/1".to_string())), "R");
    assert_eq!(action, ImageAction::RemoveFiles(strings(&["/t/1"])));
    match task.proceed(ImageEvent::Removed, "R") {
        ImageAction::Fail(message) => {
            assert!(message.starts_with("Failed to process data URL: Base64 decoding failed: "))
        }
        other => panic!("{:?}", other),
    }
}

#[test]
fn cached_data_need_no_upload() {
    let (mut task, action) = ImageTask::start(vec![multi("user", vec![image(PNG)])]);
    assert_eq!(action, ImageAction::LookUpHashes(vec![hash_base64_content(PNG)]));
    let action = process_message_images(&mut task, ImageEvent::Found(vec![Some(cdn("1"))]));
    assert_eq!(action, ImageAction::Finish);
    assert_eq!(task.messages, vec![multi("user", vec![image(&cdn("1"))])]);
}

#[test]
fn temporary_files_get_random_names() {
    let name = || {
        let (mut task, _) = ImageTask::start(vec![multi("user", vec![image(PNG)])]);
        match process_message_images(&mut task, ImageEvent::Found(vec![None])) {
            ImageAction::WriteFile(file) => file.name,
            other => panic!("{:?}", other),
        }
    };
    let first = name();
    assert_eq!(first.len(), "poe2openai_.png".len() + 16);
    assert_ne!(first, name());
}

#[test]
fn too_few_uploaded_urls_leave_the_rest() {
    let messages = vec![multi("user", vec![image("https://e/1"), image("https://e/2")])];
    let (mut task, _) = ImageTask::start(messages);
    task.proceed(ImageEvent::Found(vec![None, None]), "R");
    task.proceed(ImageEvent::Uploaded(Ok(vec![cdn("1")])), "R");
    assert_eq!(task.proceed(ImageEvent::Stored, "R"), ImageAction::Finish);
    assert_eq!(task.messages, vec![multi("user", vec![image(&cdn("1")), image("https://e/2")])]);
}

#[test]
fn the_images_of_the_last_answer_are_shown() {
    let answer = format!("![x]({})", cdn("a"));
    let mut messages = vec![
        plain("assistant", &format!("![x]({})", cdn("old"))),
        plain("user", "q1"),
        plain("assistant", &answer),
        plain("user", "q2"),
    ];
    show_answer_images(&mut messages);
    assert_eq!(messages[3], multi("user", vec![text("q2"), image(&cdn("a"))]));
    assert_eq!(messages[1], plain("user", "q1"));
    let mut alone = vec![plain("user", &answer)];
    show_answer_images(&mut alone);
    assert_eq!(alone, vec![plain("user", &answer)]);
    let mut nothing = vec![plain("assistant", "no images"), plain("user", "q")];
    show_answer_images(&mut nothing);
    assert_eq!(nothing[1], plain("user", "q"));
}

#[test]
fn images_are_attached_behind_what_is_there() {
    let urls = strings(&["u1", "u2"]);
    assert_eq!(
        attach_images(&plain("user", "t"), &urls),
        multi("user", vec![text("t"), image("u1"), image("u2")])
    );
    assert_eq!(
        attach_images(&multi("user", vec![image("u0")]), &urls),
        multi("user", vec![image("u0"), image("u1"), image("u2")])
    );
    let mut messages = vec![plain("user", "t")];
    show_images(&mut messages, 0, &vec![]);
    assert_eq!(messages, vec![plain("user", "t")]);
}
