use vstd::prelude::*;
use crate::chars::{chars_of, chars_to_string};
use crate::codec::{
    to_json, from_json, emit_collection, isos_plain, sp_collection, raws_ids_wf, raw_readable,
};
use crate::error::{TodoError, TodoResult};
use crate::todo_list::{TodoList, TodoListV, list_wf};

verus! {

/// Whether the content is nothing but blank space.
pub open spec fn is_blank(s: Seq<char>) -> bool {
    forall|i: int|
        0 <= i < s.len() ==> (s[i] == ' ' || s[i] == '\t' || s[i] == '\r' || s[i] == '\n')
}

fn content_is_blank(s: &str) -> (r: bool)
    ensures
        r == is_blank(s@),
{
    let cs = chars_of(s);
    let mut i: usize = 0;
    while i < cs.len()
        invariant
            cs@ == s@,
            i <= s@.len(),
            forall|j: int|
                0 <= j < i ==> (s@[j] == ' ' || s@[j] == '\t' || s@[j] == '\r' || s@[j] == '\n'),
        decreases s@.len() - i,
    {
        let c = cs[i];
        if !(c == ' ' || c == '\t' || c == '\r' || c == '\n') {
            return false;
        }
        i = i + 1;
    }
    true
}

/// The persisted document for `list`, ready to be written to a file in
/// full.
pub fn save_to_string(list: &TodoList) -> (r: String)
    requires
        list.wf(),
    ensures
        r@ == emit_collection(list@.tasks, list@.next_id),
        isos_plain(list@.tasks),
{
    let v = to_json(list);
    chars_to_string(&v)
}

/// What loading yields for given file content: a fresh, empty
/// collection with `next_id` 1 when the file is missing (`None`) or
/// blank — never an error then — and otherwise the decoded document,
/// which gives back exactly the collection it was saved from.  Content
/// that is neither blank nor on the document grammar, or whose document
/// breaks the identifier discipline, is owed a serialization failure.
pub fn load_from_content(content: Option<&str>) -> (r: TodoResult<TodoList>)
    ensures
        content is None ==> (r matches Ok(l) && l@.tasks.len() == 0 && l@.next_id == 1),
        content matches Some(s) && is_blank(s@) ==> (r matches Ok(l) && l@.tasks.len() == 0
            && l@.next_id == 1),
        content matches Some(s) ==> forall|lv: TodoListV|
            list_wf(lv) && isos_plain(lv.tasks) && s@ == emit_collection(lv.tasks, lv.next_id)
                ==> (r matches Ok(l) && l@ == lv),
        r matches Ok(l) ==> l.wf(),
        r matches Err(e) ==> e matches TodoError::SerdeError(_),
        content matches Some(s) && !is_blank(s@) && sp_collection(s@) is None ==> r is Err,
        content matches Some(s) && !is_blank(s@) && (sp_collection(s@) matches Some(p)
            && !raws_ids_wf(p.0, p.1)) ==> r is Err,
        content matches Some(s) && !is_blank(s@) && (sp_collection(s@) matches Some(p)
            && (exists|k: int| 0 <= k < p.0.len() && !raw_readable(#[trigger] p.0[k]))) ==> r
            is Err,
{
    match content {
        None => Ok(TodoList::new()),
        Some(s) => {
            if content_is_blank(s) {
                proof {
                    reveal_strlit("{\n\"tasks\": [");
                    assert forall|lv: TodoListV|
                        !(list_wf(lv) && isos_plain(lv.tasks) && s@ == emit_collection(
                            lv.tasks,
                            lv.next_id,
                        )) by {
                        if s@ == emit_collection(lv.tasks, lv.next_id) {
                            assert(s@[0] == '{') by {
                                assert(emit_collection(lv.tasks, lv.next_id)[0] == "{\n\"tasks\": ["@[0]);
                            }
                        }
                    }
                }
                Ok(TodoList::new())
            } else {
                from_json(s)
            }
        },
    }
}

/// Relies on std::path::Path::exists: whether something sits at `path`.
/// The answer is whatever the file system says at the moment of the
/// call, so nothing is promised of it.
#[verifier::external_body]
fn path_exists(path: &str) -> bool {
    std::path::Path::new(path).exists()
}

/// Whether something sits at `path` right now.  The file system alone
/// decides, so no more can be said of the answer.
pub fn file_exists(path: &str) -> bool {
    path_exists(path)
}

} // verus!
