//! Data model for ingested knowledge units: blocks, pages and the
//! references extracted from their content. Timestamps travel as strings
//! (several formats are tolerated) and properties as key/value pairs.

use vstd::prelude::*;

verus! {

/// A knowledge block received from an external source.
pub struct PKMBlockData {
    pub id: String,
    pub content: String,
    pub created: String,
    pub updated: String,
    pub parent: Option<String>,
    pub children: Vec<String>,
    pub page: Option<String>,
    pub properties: Vec<(String, String)>,
    pub references: Vec<PKMReference>,
    pub reference_content: Option<String>,
}

/// A knowledge page received from an external source.
pub struct PKMPageData {
    pub name: String,
    pub normalized_name: Option<String>,
    pub created: String,
    pub updated: String,
    pub properties: Vec<(String, String)>,
    pub blocks: Vec<String>,
}

/// A reference found in block or page content. `ref_type` is one of
/// `page`, `block`, `tag` or `property`.
pub struct PKMReference {
    pub ref_type: String,
    pub name: String,
    pub id: String,
}

impl Clone for PKMReference {
    fn clone(&self) -> (r: Self)
        ensures
            r.ref_type@ == self.ref_type@,
            r.name@ == self.name@,
            r.id@ == self.id@,
    {
        PKMReference { ref_type: self.ref_type.clone(), name: self.name.clone(), id: self.id.clone() }
    }
}

/// The fields a block must fill to be accepted.
pub open spec fn block_data_valid(b: &PKMBlockData) -> bool {
    &&& b.id@.len() > 0
    &&& b.content@.len() > 0
    &&& b.created@.len() > 0
    &&& b.updated@.len() > 0
    &&& (b.parent matches Some(p) ==> p@.len() > 0)
}

/// The fields a page must fill to be accepted.
pub open spec fn page_data_valid(p: &PKMPageData) -> bool {
    &&& p.name@.len() > 0
    &&& p.created@.len() > 0
    &&& p.updated@.len() > 0
}

impl PKMBlockData {
    /// Lightweight validation: `Ok` exactly when every required field is
    /// non-empty; otherwise an error message naming what is missing.
    pub fn validate(&self) -> (r: Result<(), String>)
        ensures
            r is Ok <==> block_data_valid(self),
            r matches Err(m) ==> m@.len() > 0,
    {
        proof {
            reveal_strlit("Block ID is empty");
            reveal_strlit("Block content is empty");
            reveal_strlit("Created timestamp is empty");
            reveal_strlit("Updated timestamp is empty");
            reveal_strlit("Parent ID is empty");
        }
        let mut errors: Vec<&str> = Vec::new();
        if self.id.as_str().is_empty() {
            errors.push("Block ID is empty");
        }
        if self.content.as_str().is_empty() {
            errors.push("Block content is empty");
        }
        if self.created.as_str().is_empty() {
            errors.push("Created timestamp is empty");
        }
        if self.updated.as_str().is_empty() {
            errors.push("Updated timestamp is empty");
        }
        if let Some(parent) = &self.parent {
            if parent.as_str().is_empty() {
                errors.push("Parent ID is empty");
            }
        }
        if errors.len() == 0 {
            Ok(())
        } else {
            Err(join_messages(&errors))
        }
    }
}

impl PKMPageData {
    /// Lightweight validation: `Ok` exactly when every required field is
    /// non-empty; otherwise an error message naming what is missing.
    pub fn validate(&self) -> (r: Result<(), String>)
        ensures
            r is Ok <==> page_data_valid(self),
            r matches Err(m) ==> m@.len() > 0,
    {
        proof {
            reveal_strlit("Page name is empty");
            reveal_strlit("Created timestamp is empty");
            reveal_strlit("Updated timestamp is empty");
        }
        let mut errors: Vec<&str> = Vec::new();
        if self.name.as_str().is_empty() {
            errors.push("Page name is empty");
        }
        if self.created.as_str().is_empty() {
            errors.push("Created timestamp is empty");
        }
        if self.updated.as_str().is_empty() {
            errors.push("Updated timestamp is empty");
        }
        if errors.len() == 0 {
            Ok(())
        } else {
            Err(join_messages(&errors))
        }
    }
}

/// Joins non-empty messages with a comma and space.
fn join_messages(parts: &Vec<&str>) -> (r: String)
    requires
        parts@.len() > 0,
        forall|i: int| 0 <= i < parts@.len() ==> (#[trigger] parts@[i])@.len() > 0,
    ensures
        r@.len() > 0,
{
    let mut out = String::new();
    let mut i: usize = 0;
    while i < parts.len()
        invariant
            0 <= i <= parts@.len(),
            forall|j: int| 0 <= j < parts@.len() ==> (#[trigger] parts@[j])@.len() > 0,
            i > 0 ==> out@.len() > 0,
        decreases parts@.len() - i,
    {
        if i > 0 {
            out.append(", ");
        }
        out.append(parts[i]);
        i = i + 1;
    }
    out
}

} // verus!
