//! First-run seeding of the catalog: five category tags and five
//! extension rules, inserted if absent, so that re-initializing an
//! already-seeded catalog changes nothing.
use vstd::prelude::*;
use crate::catalog::Catalog;
use crate::catalog::CatalogError;
use crate::catalog::Rule;
use crate::catalog::has_tag_name;
use crate::text::str_eq;

verus! {

/// The name of the `i`-th seed tag (and of the `i`-th seed rule, which is
/// also its destination folder).
pub open spec fn seed_tag_name(i: int) -> Seq<char> {
    if i == 0 {
        "Documents"@
    } else if i == 1 {
        "Images"@
    } else if i == 2 {
        "Videos"@
    } else if i == 3 {
        "Music"@
    } else {
        "Archives"@
    }
}

/// The display color of the `i`-th seed tag.
pub open spec fn seed_tag_color(i: int) -> Seq<char> {
    if i == 0 {
        "#4287f5"@
    } else if i == 1 {
        "#42f54e"@
    } else if i == 2 {
        "#f54242"@
    } else if i == 3 {
        "#f5a742"@
    } else {
        "#8342f5"@
    }
}

/// The extension pattern of the `i`-th seed rule.
pub open spec fn seed_rule_pattern(i: int) -> Seq<char> {
    if i == 0 {
        "pdf,doc,docx,txt,rtf,odt"@
    } else if i == 1 {
        "jpg,jpeg,png,gif,bmp,webp,svg"@
    } else if i == 2 {
        "mp4,avi,mov,wmv,mkv,webm"@
    } else if i == 3 {
        "mp3,wav,flac,ogg,aac"@
    } else {
        "zip,rar,7z,tar,gz"@
    }
}

pub open spec fn has_rule_name(rules: Seq<Rule>, name: Seq<char>) -> bool {
    exists|i: int| 0 <= i < rules.len() && rules[i].name@ == name
}

/// A catalog counts as seeded when every seed tag name and seed rule name
/// is present.
pub open spec fn is_seeded(c: Catalog) -> bool {
    forall|i: int|
        0 <= i < 5 ==> has_tag_name(c.tags@, #[trigger] seed_tag_name(i)) && has_rule_name(
            c.rules@,
            seed_tag_name(i),
        )
}

impl Catalog {
    /// Whether some tag has this name.
    pub fn has_tag_named(&self, name: &str) -> (r: bool)
        ensures
            r == has_tag_name(self.tags@, name@),
    {
        let n: usize = self.tags.len();
        let mut i: usize = 0;
        while i < n
            invariant
                n == self.tags@.len(),
                i <= n,
                forall|j: int| 0 <= j < i ==> self.tags@[j].name@ != name@,
            decreases n - i,
        {
            if str_eq(self.tags[i].name.as_str(), name) {
                return true;
            }
            i = i + 1;
        }
        false
    }

    /// Whether some rule has this name.
    pub fn has_rule_named(&self, name: &str) -> (r: bool)
        ensures
            r == has_rule_name(self.rules@, name@),
    {
        let n: usize = self.rules.len();
        let mut i: usize = 0;
        while i < n
            invariant
                n == self.rules@.len(),
                i <= n,
                forall|j: int| 0 <= j < i ==> self.rules@[j].name@ != name@,
            decreases n - i,
        {
            if str_eq(self.rules[i].name.as_str(), name) {
                return true;
            }
            i = i + 1;
        }
        false
    }

    /// Insert-if-absent of one seed tag.
    fn seed_tag(&mut self, name: &str, color: &str) -> (r: Result<(), CatalogError>)
        requires
            old(self).wf(),
        ensures
            final(self).wf(),
            final(self).files@ == old(self).files@,
            final(self).links@ == old(self).links@,
            final(self).rules@ == old(self).rules@,
            final(self).watched@ == old(self).watched@,
            final(self).next_file_id == old(self).next_file_id,
            final(self).next_rule_id == old(self).next_rule_id,
            final(self).next_tag_id <= old(self).next_tag_id + 1,
            r is Err <==> !has_tag_name(old(self).tags@, name@) && old(self).next_tag_id
                == i64::MAX,
            r matches Err(e) ==> e == CatalogError::IdsExhausted && *final(self) == *old(self),
            has_tag_name(old(self).tags@, name@) ==> *final(self) == *old(self),
            r is Ok ==> has_tag_name(final(self).tags@, name@),
            forall|nm: Seq<char>|
                has_tag_name(old(self).tags@, nm) ==> has_tag_name(final(self).tags@, nm),
            !has_tag_name(old(self).tags@, name@) && r is Ok ==> final(self).tags@.len() == old(self).tags@.len() + 1 && final(self).tags@.drop_last() == old(self).tags@ && final(self).tags@.last().id == old(self).next_tag_id && final(self).tags@.last().name@ == name@
                && final(self).tags@.last().color@ == color@ && final(self).next_tag_id == old(self).next_tag_id + 1,
    {
        if self.has_tag_named(name) {
            return Ok(());
        }
        match self.add_tag(name.to_owned(), color.to_owned()) {
            Ok(_) => {
                proof {
                    assert(self.tags@.drop_last() =~= old(self).tags@);
                    assert forall|nm: Seq<char>|
                        has_tag_name(old(self).tags@, nm) implies has_tag_name(
                        self.tags@,
                        nm,
                    ) by {
                        let w = choose|w: int|
                            0 <= w < old(self).tags@.len() && (#[trigger] old(self).tags@[w]).name@
                                == nm;
                        assert(self.tags@[w].name@ == nm);
                    };
                    assert(self.tags@[self.tags@.len() - 1].name@ == name@);
                }
                Ok(())
            },
            Err(e) => Err(e),
        }
    }

    /// Insert-if-absent of one seed rule.
    fn seed_rule(&mut self, name: &str, pattern: &str, destination: &str) -> (r: Result<
        (),
        CatalogError,
    >)
        requires
            old(self).wf(),
        ensures
            final(self).wf(),
            final(self).files@ == old(self).files@,
            final(self).links@ == old(self).links@,
            final(self).tags@ == old(self).tags@,
            final(self).watched@ == old(self).watched@,
            final(self).next_file_id == old(self).next_file_id,
            final(self).next_tag_id == old(self).next_tag_id,
            final(self).next_rule_id <= old(self).next_rule_id + 1,
            r is Err <==> !has_rule_name(old(self).rules@, name@) && old(self).next_rule_id
                == i64::MAX,
            r matches Err(e) ==> e == CatalogError::IdsExhausted && *final(self) == *old(self),
            has_rule_name(old(self).rules@, name@) ==> *final(self) == *old(self),
            r is Ok ==> has_rule_name(final(self).rules@, name@),
            forall|nm: Seq<char>|
                has_rule_name(old(self).rules@, nm) ==> has_rule_name(final(self).rules@, nm),
            !has_rule_name(old(self).rules@, name@) && r is Ok ==> final(self).rules@.len() == old(self).rules@.len() + 1 && final(self).rules@.drop_last() == old(self).rules@ && final(self).rules@.last().id == old(self).next_rule_id && final(self).rules@.last().name@
                == name@ && final(self).rules@.last().pattern@ == pattern@ && final(self).rules@.last().destination_folder@ == destination@
                && final(self).rules@.last().is_extension && final(self).rules@.last().is_active
                && final(self).next_rule_id == old(self).next_rule_id + 1,
    {
        if self.has_rule_named(name) {
            return Ok(());
        }
        match self.add_rule(
            name.to_owned(),
            pattern.to_owned(),
            destination.to_owned(),
            true,
            true,
        ) {
            Ok(_) => {
                proof {
                    assert(self.rules@.drop_last() =~= old(self).rules@);
                    assert forall|nm: Seq<char>|
                        has_rule_name(old(self).rules@, nm) implies has_rule_name(
                        self.rules@,
                        nm,
                    ) by {
                        let w = choose|w: int|
                            0 <= w < old(self).rules@.len() && (#[trigger] old(self).rules@[w]).name@ == nm;
                        assert(self.rules@[w].name@ == nm);
                    };
                    assert(self.rules@[self.rules@.len() - 1].name@ == name@);
                }
                Ok(())
            },
            Err(e) => Err(e),
        }
    }

    /// Insert-if-absent of all five seed tags, in order.
    #[verifier::rlimit(100)]
    fn seed_all_tags(&mut self) -> (r: Result<(), CatalogError>)
        requires
            old(self).wf(),
        ensures
            final(self).wf(),
            final(self).files@ == old(self).files@,
            final(self).links@ == old(self).links@,
            final(self).rules@ == old(self).rules@,
            final(self).watched@ == old(self).watched@,
            final(self).next_file_id == old(self).next_file_id,
            final(self).next_rule_id == old(self).next_rule_id,
            r matches Err(e) ==> e == CatalogError::IdsExhausted,
            old(self).next_tag_id + 5 <= i64::MAX ==> r is Ok,
            r is Ok ==> forall|i: int|
                0 <= i < 5 ==> has_tag_name(final(self).tags@, #[trigger] seed_tag_name(i)),
            (forall|i: int| 0 <= i < 5 ==> has_tag_name(old(self).tags@, #[trigger] seed_tag_name(i)))
                ==> r is Ok && *final(self) == *old(self),
            old(self).tags@.len() == 0 && old(self).next_tag_id == 1 && r is Ok ==> final(self).tags@.len() == 5
                && (forall|i: int|
                0 <= i < 5 ==> (#[trigger] final(self).tags@[i]).id == i + 1
                    && final(self).tags@[i].name@ == seed_tag_name(i) && final(self).tags@[i].color@
                    == seed_tag_color(i)),
    {
        let ghost fresh = old(self).tags@.len() == 0 && old(self).next_tag_id == 1;
        proof {
            reveal_strlit("Documents");
            reveal_strlit("Images");
            reveal_strlit("Videos");
            reveal_strlit("Music");
            reveal_strlit("Archives");
            assert(seed_tag_name(0) == "Documents"@);
            assert(seed_tag_name(1) == "Images"@);
            assert(seed_tag_name(2) == "Videos"@);
            assert(seed_tag_name(3) == "Music"@);
            assert(seed_tag_name(4) == "Archives"@);
            assert("Documents"@ != "Images"@);
            assert("Documents"@ != "Videos"@);
            assert("Documents"@ != "Music"@);
            assert("Documents"@ != "Archives"@);
            assert("Images"@ != "Videos"@) by {
                assert("Images"@[0] == 'I');
                assert("Videos"@[0] == 'V');
            }
            assert("Images"@ != "Music"@);
            assert("Images"@ != "Archives"@);
            assert("Videos"@ != "Music"@);
            assert("Videos"@ != "Archives"@);
            assert("Music"@ != "Archives"@);
        }
        match self.seed_tag("Documents", "#4287f5") {
            Err(e) => return Err(e),
            Ok(()) => {},
        }
        let ghost t1 = self.tags@;
        proof {
            if fresh {
                assert(t1.len() == 1 && self.next_tag_id == 2);
                assert(t1[0].id == 1 && t1[0].name@ == seed_tag_name(0) && t1[0].color@ == seed_tag_color(0));
                assert forall|q: int| 0 <= q < t1.len() implies (#[trigger] t1[q]).name@ != "Images"@ by {};
                assert(!has_tag_name(t1, "Images"@));
            }
        }
        match self.seed_tag("Images", "#42f54e") {
            Err(e) => return Err(e),
            Ok(()) => {},
        }
        let ghost t2 = self.tags@;
        proof {
            if fresh {
                assert(t2.drop_last() == t1 && t2.len() == 2 && self.next_tag_id == 3);
                assert(t2[0] == t1[0]);
                assert(t2[1].id == 2 && t2[1].name@ == seed_tag_name(1) && t2[1].color@ == seed_tag_color(1));
                assert forall|q: int| 0 <= q < t2.len() implies (#[trigger] t2[q]).name@ != "Videos"@ by {};
                assert(!has_tag_name(t2, "Videos"@));
            }
        }
        match self.seed_tag("Videos", "#f54242") {
            Err(e) => return Err(e),
            Ok(()) => {},
        }
        let ghost t3 = self.tags@;
        proof {
            if fresh {
                assert(t3.drop_last() == t2 && t3.len() == 3 && self.next_tag_id == 4);
                assert(t3[0] == t2[0]);
                assert(t3[1] == t2[1]);
                assert(t3[2].id == 3 && t3[2].name@ == seed_tag_name(2) && t3[2].color@ == seed_tag_color(2));
                assert forall|q: int| 0 <= q < t3.len() implies (#[trigger] t3[q]).name@ != "Music"@ by {};
                assert(!has_tag_name(t3, "Music"@));
            }
        }
        match self.seed_tag("Music", "#f5a742") {
            Err(e) => return Err(e),
            Ok(()) => {},
        }
        let ghost t4 = self.tags@;
        proof {
            if fresh {
                assert(t4.drop_last() == t3 && t4.len() == 4 && self.next_tag_id == 5);
                assert(t4[0] == t3[0]);
                assert(t4[1] == t3[1]);
                assert(t4[2] == t3[2]);
                assert(t4[3].id == 4 && t4[3].name@ == seed_tag_name(3) && t4[3].color@ == seed_tag_color(3));
                assert forall|q: int| 0 <= q < t4.len() implies (#[trigger] t4[q]).name@ != "Archives"@ by {};
                assert(!has_tag_name(t4, "Archives"@));
            }
        }
        match self.seed_tag("Archives", "#8342f5") {
            Err(e) => return Err(e),
            Ok(()) => {},
        }
        let ghost t5 = self.tags@;
        proof {
            if fresh {
                assert(t5.drop_last() == t4 && t5.len() == 5 && self.next_tag_id == 6);
                assert(t5[0] == t4[0]);
                assert(t5[1] == t4[1]);
                assert(t5[2] == t4[2]);
                assert(t5[3] == t4[3]);
                assert(t5[4].id == 5 && t5[4].name@ == seed_tag_name(4) && t5[4].color@ == seed_tag_color(4));
            }
        }
        proof {
            if fresh {
                assert(self.tags@ == t5);
                assert forall|i: int| 0 <= i < 5 implies (#[trigger] self.tags@[i]).id == i + 1
                    && self.tags@[i].name@ == seed_tag_name(i) && self.tags@[i].color@ == seed_tag_color(i) by {
                    if i == 0 {
                        assert(t5[0] == t4[0] && t4[0] == t3[0] && t3[0] == t2[0] && t2[0] == t1[0]);
                    } else if i == 1 {
                        assert(t5[1] == t4[1] && t4[1] == t3[1] && t3[1] == t2[1]);
                    } else if i == 2 {
                        assert(t5[2] == t4[2] && t4[2] == t3[2]);
                    } else if i == 3 {
                        assert(t5[3] == t4[3]);
                    }
                };
            }
        }
        Ok(())
    }

    /// Insert-if-absent of all five seed rules, in order.
    #[verifier::rlimit(100)]
    fn seed_all_rules(&mut self) -> (r: Result<(), CatalogError>)
        requires
            old(self).wf(),
        ensures
            final(self).wf(),
            final(self).files@ == old(self).files@,
            final(self).links@ == old(self).links@,
            final(self).tags@ == old(self).tags@,
            final(self).watched@ == old(self).watched@,
            final(self).next_file_id == old(self).next_file_id,
            final(self).next_tag_id == old(self).next_tag_id,
            r matches Err(e) ==> e == CatalogError::IdsExhausted,
            old(self).next_rule_id + 5 <= i64::MAX ==> r is Ok,
            r is Ok ==> forall|i: int|
                0 <= i < 5 ==> has_rule_name(final(self).rules@, #[trigger] seed_tag_name(i)),
            (forall|i: int| 0 <= i < 5 ==> has_rule_name(old(self).rules@, #[trigger] seed_tag_name(i)))
                ==> r is Ok && *final(self) == *old(self),
            old(self).rules@.len() == 0 && old(self).next_rule_id == 1 && r is Ok ==> final(self).rules@.len() == 5
                && (forall|i: int|
                0 <= i < 5 ==> (#[trigger] final(self).rules@[i]).id == i + 1
                    && final(self).rules@[i].name@ == seed_tag_name(i)
                    && final(self).rules@[i].pattern@ == seed_rule_pattern(i)
                    && final(self).rules@[i].destination_folder@ == seed_tag_name(i)
                    && final(self).rules@[i].is_extension && final(self).rules@[i].is_active),
    {
        let ghost fresh = old(self).rules@.len() == 0 && old(self).next_rule_id == 1;
        proof {
            reveal_strlit("Documents");
            reveal_strlit("Images");
            reveal_strlit("Videos");
            reveal_strlit("Music");
            reveal_strlit("Archives");
            assert(seed_tag_name(0) == "Documents"@);
            assert(seed_tag_name(1) == "Images"@);
            assert(seed_tag_name(2) == "Videos"@);
            assert(seed_tag_name(3) == "Music"@);
            assert(seed_tag_name(4) == "Archives"@);
            assert("Documents"@ != "Images"@);
            assert("Documents"@ != "Videos"@);
            assert("Documents"@ != "Music"@);
            assert("Documents"@ != "Archives"@);
            assert("Images"@ != "Videos"@) by {
                assert("Images"@[0] == 'I');
                assert("Videos"@[0] == 'V');
            }
            assert("Images"@ != "Music"@);
            assert("Images"@ != "Archives"@);
            assert("Videos"@ != "Music"@);
            assert("Videos"@ != "Archives"@);
            assert("Music"@ != "Archives"@);
        }
        match self.seed_rule("Documents", "pdf,doc,docx,txt,rtf,odt", "Documents") {
            Err(e) => return Err(e),
            Ok(()) => {},
        }
        let ghost r1 = self.rules@;
        proof {
            if fresh {
                assert(r1.len() == 1 && self.next_rule_id == 2);
                assert(r1[0].id == 1 && r1[0].name@ == seed_tag_name(0) && r1[0].pattern@ == seed_rule_pattern(0) && r1[0].destination_folder@ == seed_tag_name(0) && r1[0].is_extension && r1[0].is_active);
                assert forall|q: int| 0 <= q < r1.len() implies (#[trigger] r1[q]).name@ != "Images"@ by {};
                assert(!has_rule_name(r1, "Images"@));
            }
        }
        match self.seed_rule("Images", "jpg,jpeg,png,gif,bmp,webp,svg", "Images") {
            Err(e) => return Err(e),
            Ok(()) => {},
        }
        let ghost r2 = self.rules@;
        proof {
            if fresh {
                assert(r2.drop_last() == r1 && r2.len() == 2 && self.next_rule_id == 3);
                assert(r2[0] == r1[0]);
                assert(r2[1].id == 2 && r2[1].name@ == seed_tag_name(1) && r2[1].pattern@ == seed_rule_pattern(1) && r2[1].destination_folder@ == seed_tag_name(1) && r2[1].is_extension && r2[1].is_active);
                assert forall|q: int| 0 <= q < r2.len() implies (#[trigger] r2[q]).name@ != "Videos"@ by {};
                assert(!has_rule_name(r2, "Videos"@));
            }
        }
        match self.seed_rule("Videos", "mp4,avi,mov,wmv,mkv,webm", "Videos") {
            Err(e) => return Err(e),
            Ok(()) => {},
        }
        let ghost r3 = self.rules@;
        proof {
            if fresh {
                assert(r3.drop_last() == r2 && r3.len() == 3 && self.next_rule_id == 4);
                assert(r3[0] == r2[0]);
                assert(r3[1] == r2[1]);
                assert(r3[2].id == 3 && r3[2].name@ == seed_tag_name(2) && r3[2].pattern@ == seed_rule_pattern(2) && r3[2].destination_folder@ == seed_tag_name(2) && r3[2].is_extension && r3[2].is_active);
                assert forall|q: int| 0 <= q < r3.len() implies (#[trigger] r3[q]).name@ != "Music"@ by {};
                assert(!has_rule_name(r3, "Music"@));
            }
        }
        match self.seed_rule("Music", "mp3,wav,flac,ogg,aac", "Music") {
            Err(e) => return Err(e),
            Ok(()) => {},
        }
        let ghost r4 = self.rules@;
        proof {
            if fresh {
                assert(r4.drop_last() == r3 && r4.len() == 4 && self.next_rule_id == 5);
                assert(r4[0] == r3[0]);
                assert(r4[1] == r3[1]);
                assert(r4[2] == r3[2]);
                assert(r4[3].id == 4 && r4[3].name@ == seed_tag_name(3) && r4[3].pattern@ == seed_rule_pattern(3) && r4[3].destination_folder@ == seed_tag_name(3) && r4[3].is_extension && r4[3].is_active);
                assert forall|q: int| 0 <= q < r4.len() implies (#[trigger] r4[q]).name@ != "Archives"@ by {};
                assert(!has_rule_name(r4, "Archives"@));
            }
        }
        match self.seed_rule("Archives", "zip,rar,7z,tar,gz", "Archives") {
            Err(e) => return Err(e),
            Ok(()) => {},
        }
        let ghost r5 = self.rules@;
        proof {
            if fresh {
                assert(r5.drop_last() == r4 && r5.len() == 5 && self.next_rule_id == 6);
                assert(r5[0] == r4[0]);
                assert(r5[1] == r4[1]);
                assert(r5[2] == r4[2]);
                assert(r5[3] == r4[3]);
                assert(r5[4].id == 5 && r5[4].name@ == seed_tag_name(4) && r5[4].pattern@ == seed_rule_pattern(4) && r5[4].destination_folder@ == seed_tag_name(4) && r5[4].is_extension && r5[4].is_active);
            }
        }
        proof {
            if fresh {
                assert(self.rules@ == r5);
                assert forall|i: int| 0 <= i < 5 implies (#[trigger] self.rules@[i]).id == i + 1
                    && self.rules@[i].name@ == seed_tag_name(i) && self.rules@[i].pattern@ == seed_rule_pattern(i)
                    && self.rules@[i].destination_folder@ == seed_tag_name(i)
                    && self.rules@[i].is_extension && self.rules@[i].is_active by {
                    if i == 0 {
                        assert(r5[0] == r4[0] && r4[0] == r3[0] && r3[0] == r2[0] && r2[0] == r1[0]);
                    } else if i == 1 {
                        assert(r5[1] == r4[1] && r4[1] == r3[1] && r3[1] == r2[1]);
                    } else if i == 2 {
                        assert(r5[2] == r4[2] && r4[2] == r3[2]);
                    } else if i == 3 {
                        assert(r5[3] == r4[3]);
                    }
                };
            }
        }
        Ok(())
    }

    /// Seed the catalog: insert each of the five category tags and the
    /// five extension rules that is not already present (by name). On a
    /// fresh catalog this creates exactly five tags and five rules, in
    /// order; on an already-seeded catalog it changes nothing.
    pub fn seed_defaults(&mut self) -> (r: Result<(), CatalogError>)
        requires
            old(self).wf(),
        ensures
            final(self).wf(),
            final(self).files@ == old(self).files@,
            final(self).links@ == old(self).links@,
            final(self).watched@ == old(self).watched@,
            final(self).next_file_id == old(self).next_file_id,
            r matches Err(e) ==> e == CatalogError::IdsExhausted,
            old(self).next_tag_id + 5 <= i64::MAX && old(self).next_rule_id + 5 <= i64::MAX
                ==> r is Ok,
            r is Ok ==> is_seeded(*final(self)),
            is_seeded(*old(self)) ==> r is Ok && *final(self) == *old(self),
            old(self).tags@.len() == 0 && old(self).rules@.len() == 0 && old(self).next_tag_id == 1
                && old(self).next_rule_id == 1 && r is Ok ==> {
                &&& final(self).tags@.len() == 5
                &&& forall|i: int|
                    0 <= i < 5 ==> (#[trigger] final(self).tags@[i]).id == i + 1
                        && final(self).tags@[i].name@ == seed_tag_name(i)
                        && final(self).tags@[i].color@ == seed_tag_color(i)
                &&& final(self).rules@.len() == 5
                &&& forall|i: int|
                    0 <= i < 5 ==> (#[trigger] final(self).rules@[i]).id == i + 1
                        && final(self).rules@[i].name@ == seed_tag_name(i)
                        && final(self).rules@[i].pattern@ == seed_rule_pattern(i)
                        && final(self).rules@[i].destination_folder@ == seed_tag_name(i)
                        && final(self).rules@[i].is_extension && final(self).rules@[i].is_active
            },
    {
        match self.seed_all_tags() {
            Err(e) => return Err(e),
            Ok(()) => {},
        }
        match self.seed_all_rules() {
            Err(e) => return Err(e),
            Ok(()) => {},
        }
        Ok(())
    }
}

} // verus!
