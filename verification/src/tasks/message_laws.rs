//! What is told to a model of messages and files, and what is kept of settings and projects.

use vstd::prelude::*;

use crate::agent::calls_json;
use crate::attachments::is_image_type;
use crate::base64::encoded;
use crate::chat::ChatModel;
use crate::coding::view_laws::{lemma_part_at_end, lemma_part_stays};
use crate::json::JsonModel;
use crate::json_model::{
    lemma_member_index, lemma_member_index_is, lemma_with_get, lemma_with_get_other,
};
use crate::models::AttachmentModel;
use crate::tasks::projects::times;
use crate::tasks::prompt::{
    chat_json, file_part, file_text, files_fault, first_image, holds_text, joined_text,
    message_with_files, mixed_content, told_of, ReadModel,
};
use crate::tasks::records::TaskModel;
use crate::tasks::settings::{with_input, SettingsInput, SettingsModel};
use crate::tasks::startup::{interrupted, marked_ids};
use crate::text::{has_part, is_blank, occurs_at, trimmed};

verus! {

// ---- messages ----

proof fn lemma_with_gets()
    ensures
        forall|json: JsonModel, key: Seq<char>, value: JsonModel, other: Seq<char>|
            json is Object ==> #[trigger] json.with(key, value).get(other) == if key == other {
                Some(value)
            } else {
                json.get(other)
            },
{
    assert forall|json: JsonModel, key: Seq<char>, value: JsonModel, other: Seq<char>|
        json is Object implies #[trigger] json.with(key, value).get(other) == if key == other {
        Some(value)
    } else {
        json.get(other)
    } by {
        if key == other {
            lemma_with_get(json, key, value);
        } else {
            lemma_with_get_other(json, key, value, other);
        }
    }
}

/// A message of the conversation is sent with its role, what it says, its calls and the call that
/// it answers.
pub proof fn law_chat_messages_are_sent_whole(message: ChatModel)
    ensures
        chat_json(message) is Object,
        chat_json(message).text("role"@) == Some(message.role),
        chat_json(message).text("content"@) == message.content,
        chat_json(message).text("reasoning_content"@) == message.reasoning_content,
        chat_json(message).text("tool_call_id"@) == message.tool_call_id,
        chat_json(message).text("name"@) == message.name,
        chat_json(message).get("tool_calls"@) == match message.tool_calls {
            Some(calls) => Some(calls_json(calls)),
            None => None,
        },
{
    reveal_strlit("role");
    reveal_strlit("content");
    reveal_strlit("reasoning_content");
    reveal_strlit("reasoning_opaque");
    reveal_strlit("tool_calls");
    reveal_strlit("tool_call_id");
    reveal_strlit("name");
    assert("role"@.len() == 4 && "content"@.len() == 7 && "reasoning_content"@.len() == 17
        && "reasoning_opaque"@.len() == 16 && "tool_calls"@.len() == 10 && "tool_call_id"@.len()
        == 12 && "name"@.len() == 4);
    assert("role"@[0] == 'r' && "name"@[0] == 'n');
    lemma_with_gets();
    let members = seq![("role"@, JsonModel::Str(message.role))];
    let role = JsonModel::Object(members);
    lemma_member_index_is(members, "role"@, 0);
    assert forall|key: Seq<char>| key != "role"@ implies #[trigger] role.get(key) is None by {
        lemma_member_index(members, key);
    }
    assert(role.get("content"@) is None);
    assert(role.get("reasoning_content"@) is None);
    assert(role.get("tool_calls"@) is None);
    assert(role.get("tool_call_id"@) is None);
    assert(role.get("name"@) is None);
}

proof fn lemma_joined_text(
    text: Seq<char>,
    files: Seq<AttachmentModel>,
    reads: Seq<ReadModel>,
    n: int,
    i: int,
)
    requires
        0 <= n,
    ensures
        joined_text(text, files, reads, n).len() >= text.len(),
        joined_text(text, files, reads, n).take(text.len() as int) == text,
        0 <= i < n ==> has_part(joined_text(text, files, reads, n), told_of(files, reads, i)),
    decreases n,
{
    if n == 0 {
        assert(text.take(text.len() as int) =~= text);
    } else {
        lemma_joined_text(text, files, reads, n - 1, i);
        let head = joined_text(text, files, reads, n - 1);
        let lead = if head.len() == 0 {
            head
        } else {
            head + "\n\n"@
        };
        let told = told_of(files, reads, n - 1);
        let all = lead + told;
        assert(all.take(text.len() as int) =~= head.take(text.len() as int));
        lemma_part_at_end(lead, told);
        if i < n - 1 && 0 <= i {
            assert(all.take(head.len() as int) =~= head);
            lemma_part_stays(head, told_of(files, reads, i), all);
        }
    }
}

proof fn lemma_first_image(files: Seq<AttachmentModel>)
    ensures
        0 <= first_image(files) <= files.len(),
        first_image(files) < files.len() ==> is_image_type(files[first_image(files)].mime),
        forall|j: int| 0 <= j < first_image(files) ==> !is_image_type((#[trigger] files[j]).mime),
    decreases files.len(),
{
    if files.len() > 0 && !is_image_type(files.first().mime) {
        let rest = files.drop_first();
        lemma_first_image(rest);
        assert forall|j: int| 0 <= j < 1 + first_image(rest) implies !is_image_type(
            (#[trigger] files[j]).mime,
        ) by {
            if j > 0 {
                assert(rest[j - 1] == files[j]);
            }
        }
    }
}

/// Where no file of a message is a picture, its text is what was said and what is told of each
/// file. Where one is, the content has a part for what was said and one for each file, in order: a
/// picture as itself, any other file by what is told of it.
pub proof fn law_every_file_is_told_of(message: ChatModel, reads: Seq<ReadModel>, i: int)
    requires
        0 <= i < message.attachments.len(),
        reads.len() == message.attachments.len(),
    ensures
        ({
            let files = message.attachments;
            let said = if message.content is Some {
                message.content->0
            } else {
                Seq::empty()
            };
            let sent = message_with_files(message, reads);
            let first: int = if said.len() > 0 {
                1
            } else {
                0
            };
            &&& sent.text("role"@) == Some(message.role)
            &&& (forall|j: int| 0 <= j < files.len() ==> !is_image_type((#[trigger] files[j]).mime))
                ==> {
                &&& sent.text("content"@) is Some
                &&& sent.text("content"@)->0.len() >= said.len()
                &&& sent.text("content"@)->0.take(said.len() as int) == said
                &&& has_part(sent.text("content"@)->0, told_of(files, reads, i))
            }
            &&& (exists|j: int| 0 <= j < files.len() && is_image_type((#[trigger] files[j]).mime))
                ==> {
                let parts = sent.items("content"@)->0;
                &&& sent.items("content"@) is Some
                &&& parts.len() == first + files.len()
                &&& said.len() > 0 ==> parts[0].text("text"@) == Some(said)
                &&& is_image_type(files[i].mime) ==> parts[first + i].get("image_url"@) is Some
                    && parts[first + i].get("image_url"@)->0.text("url"@) == Some(
                    "data:"@ + files[i].mime + ";base64,"@ + encoded(reads[i].bytes),
                )
                &&& !is_image_type(files[i].mime) ==> parts[first + i].text("text"@) == Some(
                    told_of(files, reads, i),
                )
            }
        }),
{
    reveal_strlit("role");
    reveal_strlit("content");
    reveal_strlit("type");
    reveal_strlit("text");
    reveal_strlit("image_url");
    assert("role"@.len() == 4 && "content"@.len() == 7 && "type"@.len() == 4 && "text"@.len() == 4
        && "image_url"@.len() == 9);
    assert("type"@[1] == 'y' && "text"@[1] == 'e');
    let files = message.attachments;
    let said = if message.content is Some {
        message.content->0
    } else {
        Seq::empty()
    };
    law_chat_messages_are_sent_whole(message);
    lemma_with_gets();
    lemma_first_image(files);
    lemma_joined_text(said, files, reads, files.len() as int, i);
    let parts = mixed_content(message, reads);
    if said.len() > 0 {
        let members = parts[0]->Object_0;
        if first_image(files) < files.len() {
            lemma_member_index_is(members, "text"@, 1);
        }
    }
    let part = file_part(files, reads, i);
    if is_image_type(files[i].mime) {
        lemma_member_index_is(part->Object_0, "image_url"@, 1);
        let inner = part.get("image_url"@)->0;
        lemma_member_index_is(inner->Object_0, "url"@, 0);
    } else {
        lemma_member_index_is(part->Object_0, "text"@, 1);
    }
}

/// What is told of a file is its name, its text where it holds text, and where it lies.
pub proof fn law_files_are_told_by_name_text_and_place(
    file: AttachmentModel,
    size: nat,
    text: Seq<char>,
    path: Seq<char>,
)
    ensures
        has_part(file_text(file, size, text, path), file.name),
        has_part(file_text(file, size, text, path), path),
        holds_text(file) ==> has_part(file_text(file, size, text, path), text),
{
    let all = file_text(file, size, text, path);
    let head = "[Attached file: "@;
    assert(all.subrange(head.len() as int, head.len() + file.name.len() as int) =~= file.name);
    assert(occurs_at(all, file.name, head.len() as int));
    if holds_text(file) {
        let line = crate::tasks::prompt::file_line(file);
        assert(all.subrange(line.len() as int, line.len() + text.len() as int) =~= text);
        assert(occurs_at(all, text, line.len() as int));
        let at = all.len() - "]"@.len() - path.len();
        assert(all.subrange(at, at + path.len()) =~= path);
        assert(occurs_at(all, path, at));
    } else {
        let end = ". Use the file tools if you need to inspect its raw contents."@;
        let at = all.len() - end.len() - path.len();
        assert(all.subrange(at, at + path.len()) =~= path);
        assert(occurs_at(all, path, at));
    }
}

/// A message with files is refused if and only if it is not one of the user, or has a picture that
/// the model cannot see.
pub proof fn law_files_are_refused_for_a_reason(message: ChatModel, supports_images: bool)
    ensures
        files_fault(message, supports_images) is Some <==> message.attachments.len() > 0 && (
        message.role != "user"@ || (!supports_images && exists|i: int|
            0 <= i < message.attachments.len() && is_image_type(
                (#[trigger] message.attachments[i]).mime,
            ))),
{
    lemma_first_image(message.attachments);
}

// ---- settings ----

/// What the user changes is changed, and what is left empty stays as it was.
pub proof fn law_settings_change_as_the_user_says(s: SettingsModel, input: SettingsInput)
    ensures
        is_blank(input.model@) ==> with_input(s, input).model == s.model,
        !is_blank(input.model@) ==> with_input(s, input).model == trimmed(input.model@),
        is_blank(input.api_base_url@) ==> with_input(s, input).api_base_url == s.api_base_url,
        input.api_key is None ==> with_input(s, input).api_key == s.api_key,
        (input.api_key.deep_view() matches Some(key) ==> !is_blank(key) ==> with_input(
            s,
            input,
        ).api_key == Some(trimmed(key))),
        (input.api_key.deep_view() matches Some(key) ==> is_blank(key) ==> with_input(
            s,
            input,
        ).api_key is None),
        (input.max_steps matches Some(n) ==> n >= 1 ==> with_input(s, input).max_steps == n),
        input.max_steps is None ==> with_input(s, input).max_steps == s.max_steps,
        (input.timeout_secs matches Some(n) ==> 5 <= n <= 120 ==> with_input(s, input).timeout_secs
            == n),
        input.timeout_secs is None ==> with_input(s, input).timeout_secs == s.timeout_secs,
{
    crate::text::lemma_blank_trim(input.model@);
    crate::text::lemma_blank_trim(input.api_base_url@);
    if let Some(key) = input.api_key.deep_view() {
        crate::text::lemma_blank_trim(key);
    }
}

// ---- projects and starts ----

/// The tasks of a project are counted, each once.
pub proof fn law_tasks_of_a_project_are_counted(keys: Seq<Seq<char>>, key: Seq<char>)
    ensures
        times(keys, key) == keys.filter(|k: Seq<char>| k == key).len(),
    decreases keys.len(),
{
    reveal(Seq::filter);
    if keys.len() > 0 {
        law_tasks_of_a_project_are_counted(keys.drop_last(), key);
    }
}

proof fn lemma_marked_ids(tasks: Seq<TaskModel>, marks: Seq<bool>, i: int)
    requires
        tasks.len() == marks.len(),
        0 <= i < tasks.len(),
        marks[i],
    ensures
        marked_ids(tasks, marks).contains(tasks[i].id),
    decreases tasks.len(),
{
    let all = marked_ids(tasks, marks);
    if i < tasks.len() - 1 {
        lemma_marked_ids(tasks.drop_last(), marks.drop_last(), i);
        let head = marked_ids(tasks.drop_last(), marks.drop_last());
        let k = choose|k: int| 0 <= k < head.len() && head[k] == tasks[i].id;
        assert(all[k] == tasks[i].id);
    } else {
        assert(all[all.len() - 1] == tasks[i].id);
    }
}

/// Every task of which anything is new is named after a start. One that was at work says that it
/// was interrupted, and keeps its messages and what it remembers.
pub proof fn law_starts_name_every_changed_task(
    tasks: Seq<TaskModel>,
    marks: Seq<bool>,
    at: i64,
    i: int,
)
    requires
        tasks.len() == marks.len(),
        0 <= i < tasks.len(),
    ensures
        marks[i] ==> marked_ids(tasks, marks).contains(tasks[i].id),
        interrupted(tasks[i], at).messages == tasks[i].messages,
        interrupted(tasks[i], at).memory == tasks[i].memory,
        interrupted(tasks[i], at).id == tasks[i].id,
        interrupted(tasks[i], at) != tasks[i] ==> interrupted(tasks[i], at).error is Some,
{
    if marks[i] {
        lemma_marked_ids(tasks, marks, i);
    }
}

} // verus!
