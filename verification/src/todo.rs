//! Todos recorded for `TODO:` lines.

use vstd::prelude::*;
use crate::issue::tagged_line;
use crate::text::{first_two_pieces, signed_decimal_string, split_on};

verus! {

/// A todo tied to a line of source.
#[derive(Debug)]
pub struct TODO {
    pub id: i64,
    pub description: String,
    pub todo_line: String,
    pub complete: i64,
}

/// Builds the todo for `line`, whose text before the first `:` is the prefix and
/// whose text up to the next `:` is the description; the todo is not complete.
pub fn structure_todo(line: String, total_todos: i64) -> (todo: TODO)
    requires
        split_on(line@, ":"@).len() >= 2,
    ensures
        todo.id == total_todos,
        todo.description@ == split_on(line@, ":"@)[1],
        todo.todo_line@ == tagged_line(
            split_on(line@, ":"@)[0],
            total_todos as int,
            split_on(line@, ":"@)[1],
        ),
        todo.complete == 0,
{
    proof {
        reveal_strlit(":");
    }
    let (prefix, description) = first_two_pieces(line.as_str(), ":");
    let mut todo_line = prefix;
    todo_line.append("(#");
    todo_line.append(signed_decimal_string(total_todos).as_str());
    todo_line.append("):");
    todo_line.append(description.as_str());
    TODO { id: total_todos, description, todo_line, complete: 0 }
}

} // verus!
