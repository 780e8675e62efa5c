//! What taking files that come with a message guarantees.

use vstd::prelude::*;

use crate::attachments::{
    collected, detected, extension_of, first_refused, is_control, is_task_id, key_of, last_dot,
    last_name, leaf_start, only_dots, path_names, reference_of, safe_char, safe_name, stored_fault,
    taken_files, total_bytes, with_files, FileModel, InputModel, MAX_NAME_CHARS,
    MAX_TOTAL_ATTACHMENT_BYTES,
};
use crate::base64::{decoded, MAX_ATTACHMENT_BYTES};
use crate::text::{finishes_with, lowered, next_char, split_from, split_on, trimmed};

verus! {

proof fn lemma_collected(inputs: Seq<InputModel>, i: int)
    requires
        collected(inputs) is Ok,
    ensures
        collected(inputs)->Ok_0.len() == inputs.len(),
        0 <= i < inputs.len() ==> {
            let file = collected(inputs)->Ok_0[i];
            &&& file.name == inputs[i].name
            &&& file.mime == inputs[i].mime
            &&& decoded(inputs[i].data) == Ok::<Seq<u8>, Seq<char>>(file.bytes)
        },
    decreases inputs.len(),
{
    if inputs.len() > 0 {
        lemma_collected(inputs.drop_last(), i);
    }
}

proof fn lemma_with_files(files: Seq<FileModel>, more: Seq<FileModel>)
    requires
        with_files(files, more) is Ok,
    ensures
        with_files(files, more)->Ok_0 == files + more,
    decreases more.len(),
{
    if more.len() > 0 {
        lemma_with_files(files, more.drop_last());
        assert((files + more.drop_last()).push(more.last()) =~= files + more);
    } else {
        assert(files + more =~= files);
    }
}

/// Every file that comes with a message is taken, with its name and its bytes, in order: those that
/// were sent, and then those that were read from the disk. Or none is.
pub proof fn law_all_files_are_taken_or_none(
    task_id: Seq<char>,
    inputs: Seq<InputModel>,
    more: Seq<FileModel>,
    i: int,
)
    requires
        taken_files(task_id, inputs, more) is Ok,
    ensures
        ({
            let files = taken_files(task_id, inputs, more)->Ok_0;
            &&& files.len() == inputs.len() + more.len()
            &&& files.len() <= 8
            &&& 0 <= i < inputs.len() ==> {
                &&& files[i].name == inputs[i].name
                &&& files[i].mime == inputs[i].mime
                &&& decoded(inputs[i].data) == Ok::<Seq<u8>, Seq<char>>(files[i].bytes)
            }
            &&& files.skip(inputs.len() as int) == more
            &&& 0 <= i < files.len() ==> detected(
                files[i].mime,
                files[i].name,
                files[i].bytes,
            ) is Ok
        }),
{
    let files = taken_files(task_id, inputs, more)->Ok_0;
    lemma_collected(inputs, i);
    let first = collected(inputs)->Ok_0;
    lemma_with_files(first, more);
    assert(files.skip(inputs.len() as int) =~= more);
    lemma_none_refused(files, 0, i);
}

proof fn lemma_none_refused(files: Seq<FileModel>, from: int, i: int)
    requires
        0 <= from,
        first_refused(files, from) >= files.len(),
    ensures
        from <= i < files.len() ==> detected(files[i].mime, files[i].name, files[i].bytes) is Ok,
    decreases files.len() - from,
{
    if from < files.len() {
        lemma_none_refused(files, from + 1, i);
    }
}

proof fn lemma_first_refused_none(files: Seq<FileModel>, from: int)
    requires
        0 <= from <= files.len(),
        forall|i: int|
            from <= i < files.len() ==> detected(
                (#[trigger] files[i]).mime,
                files[i].name,
                files[i].bytes,
            ) is Ok,
    ensures
        first_refused(files, from) == files.len(),
    decreases files.len() - from,
{
    if from < files.len() {
        assert(detected(files[from].mime, files[from].name, files[from].bytes) is Ok);
        lemma_first_refused_none(files, from + 1);
    }
}

proof fn lemma_total_add(a: Seq<FileModel>, b: Seq<FileModel>)
    ensures
        total_bytes(a + b) == total_bytes(a) + total_bytes(b),
    decreases b.len(),
{
    if b.len() == 0 {
        assert(a + b =~= a);
    } else {
        assert((a + b).drop_last() =~= a + b.drop_last());
        assert((a + b).last() == b.last());
        lemma_total_add(a, b.drop_last());
    }
}

proof fn lemma_collects(inputs: Seq<InputModel>, files: Seq<FileModel>)
    requires
        inputs.len() == files.len(),
        total_bytes(files) <= MAX_TOTAL_ATTACHMENT_BYTES,
        forall|i: int|
            0 <= i < files.len() ==> {
                &&& (#[trigger] files[i]).name == inputs[i].name
                &&& files[i].mime == inputs[i].mime
                &&& decoded(inputs[i].data) == Ok::<Seq<u8>, Seq<char>>(files[i].bytes)
                &&& 0 < files[i].bytes.len() <= MAX_ATTACHMENT_BYTES
            },
    ensures
        collected(inputs) == Ok::<Seq<FileModel>, Seq<char>>(files),
    decreases inputs.len(),
{
    if inputs.len() > 0 {
        let head = files.drop_last();
        assert forall|i: int| 0 <= i < head.len() implies {
            &&& (#[trigger] head[i]).name == inputs.drop_last()[i].name
            &&& head[i].mime == inputs.drop_last()[i].mime
            &&& decoded(inputs.drop_last()[i].data) == Ok::<Seq<u8>, Seq<char>>(head[i].bytes)
            &&& 0 < head[i].bytes.len() <= MAX_ATTACHMENT_BYTES
        } by {
            assert(head[i] == files[i]);
        }
        lemma_collects(inputs.drop_last(), head);
        let last = files[files.len() - 1];
        assert(last == files.last());
        assert(head.push(files.last()) =~= files);
        assert((FileModel { name: last.name, mime: last.mime, bytes: last.bytes }) == last);
    } else {
        assert(files =~= Seq::<FileModel>::empty());
    }
}

proof fn lemma_adds(files: Seq<FileModel>, more: Seq<FileModel>)
    requires
        total_bytes(files + more) <= MAX_TOTAL_ATTACHMENT_BYTES,
        forall|i: int|
            0 <= i < more.len() ==> 0 < (#[trigger] more[i]).bytes.len() <= MAX_ATTACHMENT_BYTES,
    ensures
        with_files(files, more) == Ok::<Seq<FileModel>, Seq<char>>(files + more),
    decreases more.len(),
{
    if more.len() > 0 {
        let head = more.drop_last();
        assert((files + more).drop_last() =~= files + head);
        assert((files + more).last() == more.last());
        assert forall|i: int| 0 <= i < head.len() implies 0 < (#[trigger] head[i]).bytes.len()
            <= MAX_ATTACHMENT_BYTES by {
            assert(head[i] == more[i]);
        }
        lemma_adds(files, head);
        assert(0 < more[more.len() - 1].bytes.len() <= MAX_ATTACHMENT_BYTES);
        assert((files + head).push(more.last()) =~= files + more);
    } else {
        assert(files + more =~= files);
    }
}

/// Files that are no more than are allowed, neither empty nor too large, alone and together, and of
/// a type that is accepted are taken.
pub proof fn law_files_within_the_limits_are_taken(
    task_id: Seq<char>,
    inputs: Seq<InputModel>,
    sent: Seq<FileModel>,
    more: Seq<FileModel>,
)
    requires
        is_task_id(task_id),
        inputs.len() == sent.len(),
        inputs.len() + more.len() <= 8,
        forall|i: int|
            0 <= i < sent.len() ==> {
                &&& (#[trigger] sent[i]).name == inputs[i].name
                &&& sent[i].mime == inputs[i].mime
                &&& decoded(inputs[i].data) == Ok::<Seq<u8>, Seq<char>>(sent[i].bytes)
            },
        forall|i: int|
            0 <= i < (sent + more).len() ==> {
                let file = #[trigger] (sent + more)[i];
                &&& 0 < file.bytes.len() <= 25 * 1024 * 1024
                &&& detected(file.mime, file.name, file.bytes) is Ok
            },
        total_bytes(sent + more) <= 50 * 1024 * 1024,
    ensures
        taken_files(task_id, inputs, more) == Ok::<Seq<FileModel>, Seq<char>>(sent + more),
{
    let all = sent + more;
    lemma_total_add(sent, more);
    assert forall|i: int| 0 <= i < sent.len() implies {
        &&& (#[trigger] sent[i]).name == inputs[i].name
        &&& sent[i].mime == inputs[i].mime
        &&& decoded(inputs[i].data) == Ok::<Seq<u8>, Seq<char>>(sent[i].bytes)
        &&& 0 < sent[i].bytes.len() <= MAX_ATTACHMENT_BYTES
    } by {
        assert(all[i] == sent[i]);
    }
    lemma_collects(inputs, sent);
    assert forall|i: int| 0 <= i < more.len() implies 0 < (#[trigger] more[i]).bytes.len()
        <= MAX_ATTACHMENT_BYTES by {
        assert(all[sent.len() + i] == more[i]);
    }
    lemma_adds(sent, more);
    assert forall|i: int| 0 <= i < all.len() implies detected(
        (#[trigger] all[i]).mime,
        all[i].name,
        all[i].bytes,
    ) is Ok by {}
    lemma_first_refused_none(all, 0);
}

/// What is kept of a file names it, tells its size, and leads to its bytes by its own identifier.
pub proof fn law_references_tell_of_their_file(
    task_id: Seq<char>,
    file: FileModel,
    mime: Seq<char>,
    id: Seq<char>,
    other: Seq<char>,
)
    requires
        file.bytes.len() <= u64::MAX,
    ensures
        reference_of(task_id, file, mime, id).id == id,
        reference_of(task_id, file, mime, id).mime == mime,
        reference_of(task_id, file, mime, id).size == file.bytes.len(),
        reference_of(task_id, file, mime, id).name == safe_name(file.name),
        finishes_with(reference_of(task_id, file, mime, id).storage_key, id + ".bin"@),
        id != other ==> key_of(task_id, id) != key_of(task_id, other),
        stored_fault(reference_of(task_id, file, mime, id), file.bytes.len() as u64) is None
            <==> file.bytes.len() <= MAX_ATTACHMENT_BYTES,
{
    let key = key_of(task_id, id);
    let end = id + ".bin"@;
    assert(key.skip(key.len() - end.len()) =~= end);
    if id != other && key == key_of(task_id, other) {
        let front = ("attachments/"@ + task_id + "/"@).len() as int;
        assert(id =~= key.subrange(front, key.len() - ".bin"@.len()));
        assert(other =~= key.subrange(front, key.len() - ".bin"@.len()));
    }
}

proof fn lemma_no_separator(s: Seq<char>, n: int)
    requires
        0 <= n <= s.len(),
        forall|i: int| 0 <= i < n ==> #[trigger] s[i] != '/' && s[i] != '\\',
    ensures
        leaf_start(s, n) == 0,
    decreases n,
{
    if n > 0 {
        assert(s[n - 1] != '/' && s[n - 1] != '\\');
        lemma_no_separator(s, n - 1);
    }
}

/// A name that a file system can take is kept as it is.
pub proof fn law_good_names_stay(name: Seq<char>)
    requires
        trimmed(name) == name,
        name.len() <= MAX_NAME_CHARS,
        !only_dots(name),
        forall|i: int|
            0 <= i < name.len() ==> {
                let c = #[trigger] name[i];
                &&& !is_control(c) && c != '/' && c != '\\' && c != '<' && c != '>' && c != ':'
                &&& c != '"' && c != '|' && c != '?' && c != '*'
            },
    ensures
        safe_name(name) == name,
{
    assert forall|i: int| 0 <= i < name.len() implies #[trigger] name[i] != '/' && name[i] != '\\' by {}
    lemma_no_separator(name, name.len() as int);
    assert(name.skip(0) =~= name);
    assert(name.map_values(|c: char| safe_char(c)) =~= name);
}

proof fn lemma_last_dot(s: Seq<char>, n: int, dot: int)
    requires
        0 <= dot < n <= s.len(),
        s[dot] == '.',
        forall|i: int| dot < i < n ==> #[trigger] s[i] != '.',
    ensures
        last_dot(s, n) == dot,
    decreases n,
{
    if n - 1 > dot {
        assert(s[n - 1] != '.');
        lemma_last_dot(s, n - 1, dot);
    }
}

/// The ending of a name is what stands behind its last dot, in lower case.
pub proof fn law_endings_stand_behind_the_last_dot(stem: Seq<char>, ending: Seq<char>)
    requires
        stem.len() > 0,
        ending.len() > 0,
        !stem.contains('/'),
        !ending.contains('/'),
        !ending.contains('.'),
    ensures
        extension_of(stem + seq!['.'] + ending) == lowered(ending),
{
    let name = stem + seq!['.'] + ending;
    crate::text::lemma_next_char(name, '/', 0);
    let slash = next_char(name, '/', 0);
    if slash < name.len() {
        if slash < stem.len() {
            assert(stem[slash] == '/');
        } else if slash > stem.len() {
            assert(ending[slash - stem.len() - 1] == '/');
        }
    }
    assert(split_from(name, '/', 0) =~= seq![name]) by {
        assert(name.skip(0) =~= name);
        assert(name.subrange(0, name.len() as int) =~= name);
    }
    let parts = split_on(name, '/');
    assert(parts =~= seq![name]);
    reveal_strlit(".");
    reveal_strlit("..");
    assert(name.len() >= 3);
    assert(last_name(parts, 1) == 0);
    let dot = stem.len() as int;
    assert(name[dot] == '.');
    assert forall|i: int| dot < i < name.len() implies #[trigger] name[i] != '.' by {
        assert(name[i] == ending[i - dot - 1]);
        if name[i] == '.' {
            assert(ending.contains('.'));
        }
    }
    lemma_last_dot(name, name.len() as int, dot);
    assert(name.skip(dot + 1) =~= ending);
}

/// The parts of a path that are names are all there, in order.
pub proof fn law_names_of_a_path_are_kept(parts: Seq<Seq<char>>)
    ensures
        path_names(parts) == parts.filter(|part: Seq<char>| part.len() > 0 && part != "."@),
    decreases parts.len(),
{
    reveal(Seq::filter);
    if parts.len() > 0 {
        law_names_of_a_path_are_kept(parts.drop_last());
    }
    assert(path_names(parts) =~= parts.filter(|part: Seq<char>| part.len() > 0 && part != "."@));
}

} // verus!
