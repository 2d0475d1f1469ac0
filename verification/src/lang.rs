//! Translation tables: the configured languages and the text translations
//! the workers share read-only.
//!
//! Loading the languages from the database and the translation files from
//! disk belongs to the application layer outside this crate; here the
//! tables are plain data with exact lookups.

use vstd::prelude::*;

verus! {

/// One configured language.
#[derive(Debug)]
pub struct LangItem {
    pub id: u64,
    pub code: String,
    pub lang: String,
    pub name: String,
}

/// One class's translations in one language: language id, module and class
/// names, and the text-to-translation pairs.
#[derive(Debug)]
pub struct LangBlock {
    pub id: u64,
    pub module: String,
    pub class: String,
    pub texts: Vec<(String, String)>,
}

/// The first block filed under a language id, module and class.
pub open spec fn find_block(
    blocks: Seq<LangBlock>,
    id: u64,
    module: Seq<char>,
    class: Seq<char>,
) -> Option<LangBlock>
    decreases blocks.len(),
{
    if blocks.len() == 0 {
        None
    } else if blocks[0].id == id && blocks[0].module@ == module && blocks[0].class@ == class {
        Some(blocks[0])
    } else {
        find_block(blocks.skip(1), id, module, class)
    }
}

/// The configured languages, the ids available to sessions, and the
/// translation blocks.
#[derive(Debug)]
pub struct Lang {
    pub langs: Vec<LangItem>,
    pub avaible: Vec<u64>,
    pub list: Vec<LangBlock>,
}

impl Lang {
    /// The stored translation blocks.
    pub open spec fn blocks(&self) -> Seq<LangBlock> {
        self.list@
    }

    /// An empty table: no languages, no translations.
    pub fn new() -> (l: Lang)
        ensures
            l.langs@ == Seq::<LangItem>::empty(),
            l.avaible@ == Seq::<u64>::empty(),
            l.blocks() == Seq::<LangBlock>::empty(),
    {
        let l = Lang { langs: Vec::new(), avaible: Vec::new(), list: Vec::new() };
        proof {
            assert(l.langs@ =~= Seq::<LangItem>::empty());
            assert(l.avaible@ =~= Seq::<u64>::empty());
            assert(l.blocks() =~= Seq::<LangBlock>::empty());
        }
        l
    }

    /// Files one language as configured and available.
    pub fn add_lang(&mut self, item: LangItem)
        ensures
            final(self).langs@ == old(self).langs@.push(item),
            final(self).avaible@ == old(self).avaible@.push(item.id),
            final(self).blocks() == old(self).blocks(),
    {
        let id = item.id;
        self.langs.push(item);
        self.avaible.push(id);
    }

    /// Files one translation block.
    pub fn add_block(&mut self, block: LangBlock)
        ensures
            final(self).langs@ == old(self).langs@,
            final(self).avaible@ == old(self).avaible@,
            final(self).blocks() == old(self).blocks().push(block),
    {
        self.list.push(block);
    }

    /// Whether a language id is available.
    pub fn check(&self, lang_id: u64) -> (r: bool)
        ensures
            r == self.avaible@.contains(lang_id),
    {
        let mut i: usize = 0;
        while i < self.avaible.len()
            invariant
                i <= self.avaible@.len(),
                forall|k: int| 0 <= k < i ==> self.avaible@[k] != lang_id,
            decreases self.avaible@.len() - i,
        {
            if self.avaible[i] == lang_id {
                return true;
            }
            i += 1;
        }
        false
    }

    /// The translations of one class of one module in one language, by the
    /// first matching block.
    pub fn get(&self, id: u64, module: &str, class: &str) -> (r: Option<&Vec<(String, String)>>)
        ensures
            match find_block(self.blocks(), id, module@, class@) {
                None => r is None,
                Some(b) => match r {
                    None => false,
                    Some(texts) => *texts == b.texts,
                },
            },
    {
        let mk: String = module.to_owned();
        let ck: String = class.to_owned();
        let mut i: usize = 0;
        proof {
            assert(self.blocks().skip(0) =~= self.blocks());
        }
        while i < self.list.len()
            invariant
                i <= self.list@.len(),
                mk@ == module@,
                ck@ == class@,
                find_block(self.blocks(), id, module@, class@) == find_block(
                    self.blocks().skip(i as int),
                    id,
                    module@,
                    class@,
                ),
            decreases self.list@.len() - i,
        {
            proof {
                assert(self.blocks().skip(i as int).skip(1) =~= self.blocks().skip(i + 1));
                assert(self.blocks().skip(i as int)[0] == self.blocks()[i as int]);
            }
            if self.list[i].id == id && self.list[i].module == mk && self.list[i].class == ck {
                return Some(&self.list[i].texts);
            }
            i += 1;
        }
        proof {
            assert(self.blocks().skip(self.blocks().len() as int) =~= Seq::<LangBlock>::empty());
        }
        None
    }
}

} // verus!
