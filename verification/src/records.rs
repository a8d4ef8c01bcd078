use vstd::prelude::*;

verus! {

/// One catalogued entry as the scanner finds it on disk: its file name, its
/// path, the path of the extracted cover (archives only), and whether it is
/// a directory. Paths are held as text, as the catalogue stores them.
#[allow(non_camel_case_types)]
pub struct cHold {
    pub name: String,
    pub filepath: String,
    pub cover_path: Option<String>,
    pub dirornot: bool,
}

/// One row of the `files` table of the catalogue database.
#[allow(non_camel_case_types)]
#[derive(Debug)]
pub struct dbHold {
    pub name: String,
    pub filepath: String,
    pub cover_path: Option<String>,
    pub dirornot: i32,
}

/// The abstract value of a catalogue row: its text fields as character
/// sequences.
pub ghost struct DbHoldView {
    pub name: Seq<char>,
    pub filepath: Seq<char>,
    pub cover_path: Option<Seq<char>>,
    pub dirornot: i32,
}

/// The abstract value of an optional text field.
pub open spec fn opt_text_view(o: Option<String>) -> Option<Seq<char>> {
    match o {
        Some(s) => Some(s@),
        None => None,
    }
}

impl View for dbHold {
    type V = DbHoldView;

    open spec fn view(&self) -> DbHoldView {
        DbHoldView {
            name: self.name@,
            filepath: self.filepath@,
            cover_path: opt_text_view(self.cover_path),
            dirornot: self.dirornot,
        }
    }
}

/// The abstract value of a sequence of rows.
pub open spec fn rows_view(rows: Seq<dbHold>) -> Seq<DbHoldView> {
    rows.map_values(|d: dbHold| d@)
}

/// A copy of an optional text field.
pub fn copy_opt_text(o: &Option<String>) -> (r: Option<String>)
    ensures
        opt_text_view(r) == opt_text_view(*o),
{
    match o {
        Some(s) => Some(s.clone()),
        None => None,
    }
}

impl dbHold {
    /// A field-by-field copy of the row.
    pub fn duplicate(&self) -> (r: dbHold)
        ensures
            r@ == self@,
    {
        dbHold {
            name: self.name.clone(),
            filepath: self.filepath.clone(),
            cover_path: copy_opt_text(&self.cover_path),
            dirornot: self.dirornot,
        }
    }
}

/// A copy of a sequence of rows, in the same order.
pub fn duplicate_rows(rows: &Vec<dbHold>) -> (r: Vec<dbHold>)
    ensures
        rows_view(r@) == rows_view(rows@),
{
    let mut r: Vec<dbHold> = Vec::new();
    for i in 0..rows.len()
        invariant
            r@.len() == i,
            i <= rows@.len(),
            forall|j: int| 0 <= j < i ==> #[trigger] r@[j]@ == rows@[j]@,
    {
        r.push(rows[i].duplicate());
    }
    assert(rows_view(r@) =~= rows_view(rows@));
    r
}

/// The database row that the catalogue stores for a scanned entry: the
/// directory flag is stored as 1 for a directory and 0 for anything else.
pub open spec fn spec_db_row(c: cHold) -> DbHoldView {
    DbHoldView {
        name: c.name@,
        filepath: c.filepath@,
        cover_path: opt_text_view(c.cover_path),
        dirornot: if c.dirornot { 1 } else { 0 },
    }
}

impl cHold {
    /// The row that is inserted into the `files` table for this entry.
    pub fn to_db_row(&self) -> (r: dbHold)
        ensures
            r@ == spec_db_row(*self),
    {
        dbHold {
            name: self.name.clone(),
            filepath: self.filepath.clone(),
            cover_path: copy_opt_text(&self.cover_path),
            dirornot: if self.dirornot { 1 } else { 0 },
        }
    }
}

} // verus!
