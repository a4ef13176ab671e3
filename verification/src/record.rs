//! The data model: prompt records, chain metadata and pack deployment info.

use vstd::prelude::*;

verus! {

/// Mathematical value of a prompt schema.
pub ghost struct SchemaV {
    pub inputs: Option<Seq<char>>,
    pub output: Option<Seq<char>>,
}

/// Mathematical value of a prompt record.
pub ghost struct RecordV {
    pub id: Seq<char>,
    pub title: Seq<char>,
    pub content: Seq<char>,
    pub tags: Seq<Seq<char>>,
    pub schema: Option<SchemaV>,
}

/// The expected inputs and the output format of a prompt, each held as JSON
/// text.
pub struct PromptSchema {
    pub inputs: Option<String>,
    pub output: Option<String>,
}

impl View for PromptSchema {
    type V = SchemaV;

    open spec fn view(&self) -> SchemaV {
        SchemaV {
            inputs: match self.inputs {
                Some(s) => Some(s@),
                None => None,
            },
            output: match self.output {
                Some(s) => Some(s@),
                None => None,
            },
        }
    }
}

impl PromptSchema {
    /// Structural copy; spec equality with the original is part of the contract.
    pub fn duplicate(&self) -> (r: PromptSchema)
        ensures
            r@ == self@,
    {
        PromptSchema {
            inputs: match &self.inputs {
                Some(s) => Some(s.clone()),
                None => None,
            },
            output: match &self.output {
                Some(s) => Some(s.clone()),
                None => None,
            },
        }
    }
}

/// A single storable prompt: identity, title, template content, tags and an
/// optional schema.
pub struct PromptData {
    pub id: String,
    pub title: String,
    pub content: String,
    pub tags: Vec<String>,
    pub schema: Option<PromptSchema>,
}

impl View for PromptData {
    type V = RecordV;

    open spec fn view(&self) -> RecordV {
        RecordV {
            id: self.id@,
            title: self.title@,
            content: self.content@,
            tags: self.tags.deep_view(),
            schema: match self.schema {
                Some(s) => Some(s@),
                None => None,
            },
        }
    }
}

impl PromptData {
    /// Structural copy; spec equality with the original is part of the contract.
    pub fn duplicate(&self) -> (r: PromptData)
        ensures
            r@ == self@,
    {
        let mut tags: Vec<String> = Vec::new();
        let mut i: usize = 0;
        while i < self.tags.len()
            invariant
                0 <= i <= self.tags@.len(),
                tags@.len() == i,
                tags.deep_view() =~~= self.tags.deep_view().subrange(0, i as int),
            decreases self.tags@.len() - i,
        {
            let ghost before = tags.deep_view();
            tags.push(self.tags[i].clone());
            proof {
                assert(tags.deep_view() =~~= before.push(self.tags@[i as int]@));
                assert(tags.deep_view() =~~= self.tags.deep_view().subrange(0, i + 1));
            }
            i += 1;
        }
        proof {
            assert(tags.deep_view() =~~= self.tags.deep_view());
        }
        PromptData {
            id: self.id.clone(),
            title: self.title.clone(),
            content: self.content.clone(),
            tags,
            schema: match &self.schema {
                Some(s) => Some(s.duplicate()),
                None => None,
            },
        }
    }
}

/// Metadata of a prompt chain: its id and title.
pub struct ChainData {
    pub id: String,
    pub title: String,
}

/// Metadata of a deployed prompt pack.
pub struct DeployedInfo {
    pub alias: String,
    pub url: String,
    pub commit_hash: String,
}

} // verus!
