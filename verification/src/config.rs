use vstd::prelude::*;

verus! {

/// Where the store lives and how the tool behaves around it.
#[derive(Debug, Clone)]
pub struct Config {
    pub root_dir: String,
    pub soon_days: i64,
    pub editor: String,
    pub archive: bool,
    pub auto_archive: bool,
}

pub struct ConfigV {
    pub root_dir: Seq<char>,
    pub soon_days: int,
    pub editor: Seq<char>,
    pub archive: bool,
    pub auto_archive: bool,
}

impl View for Config {
    type V = ConfigV;

    open spec fn view(&self) -> ConfigV {
        ConfigV {
            root_dir: self.root_dir@,
            soon_days: self.soon_days as int,
            editor: self.editor@,
            archive: self.archive,
            auto_archive: self.auto_archive,
        }
    }
}

pub open spec fn spec_active_dir(c: ConfigV) -> Seq<char> {
    c.root_dir + seq!['/', 'a', 'c', 't', 'i', 'v', 'e']
}

pub open spec fn spec_done_dir(c: ConfigV) -> Seq<char> {
    c.root_dir + seq!['/', 'd', 'o', 'n', 'e']
}

pub open spec fn spec_canceled_dir(c: ConfigV) -> Seq<char> {
    c.root_dir + seq!['/', 'c', 'a', 'n', 'c', 'e', 'l', 'e', 'd']
}

pub open spec fn spec_templates_dir(c: ConfigV) -> Seq<char> {
    c.root_dir + seq!['/', 't', 'e', 'm', 'p', 'l', 'a', 't', 'e', 's']
}

pub open spec fn spec_template_path(c: ConfigV) -> Seq<char> {
    spec_templates_dir(c) + seq!['/', 't', 'o', 'd', 'o', '.', 'm', 'd']
}

impl Config {
    pub fn active_dir(&self) -> (r: String)
        ensures
            r@ == spec_active_dir(self@),
    {
        let mut r = self.root_dir.clone();
        proof {
            reveal_strlit("/active");
        }
        r.append("/active");
        proof {
            assert(r@ =~= spec_active_dir(self@));
        }
        r
    }

    pub fn done_dir(&self) -> (r: String)
        ensures
            r@ == spec_done_dir(self@),
    {
        let mut r = self.root_dir.clone();
        proof {
            reveal_strlit("/done");
        }
        r.append("/done");
        proof {
            assert(r@ =~= spec_done_dir(self@));
        }
        r
    }

    pub fn canceled_dir(&self) -> (r: String)
        ensures
            r@ == spec_canceled_dir(self@),
    {
        let mut r = self.root_dir.clone();
        proof {
            reveal_strlit("/canceled");
        }
        r.append("/canceled");
        proof {
            assert(r@ =~= spec_canceled_dir(self@));
        }
        r
    }

    pub fn templates_dir(&self) -> (r: String)
        ensures
            r@ == spec_templates_dir(self@),
    {
        let mut r = self.root_dir.clone();
        proof {
            reveal_strlit("/templates");
        }
        r.append("/templates");
        proof {
            assert(r@ =~= spec_templates_dir(self@));
        }
        r
    }

    pub fn template_path(&self) -> (r: String)
        ensures
            r@ == spec_template_path(self@),
    {
        let mut r = self.templates_dir();
        proof {
            reveal_strlit("/todo.md");
        }
        r.append("/todo.md");
        proof {
            assert(r@ =~= spec_template_path(self@));
        }
        r
    }
}

} // verus!
