//! Repairing a linker failure by cleaning and building the project alone.

use crate::build_fix::error_patterns;
use crate::build_fix::FixContext;
use crate::paths::{self, PathStyle};
use crate::text;
use vstd::prelude::*;

verus! {

/// Cleans and builds the project whose linking failed.
pub struct VcxprojTargetCleanFirstFixer {
    /// The project and object files of the failures that were repaired.
    pub seen_pairs: Vec<(String, String)>,
    /// The build tool, or why there is none.
    pub ms_build_path: Result<String, String>,
}

/// Why a repair is given up.
#[derive(Debug)]
pub enum FixError {
    /// The pattern of a failure does not compile.
    NoPattern,
    /// A failure that was repaired before is there again.
    SeenBefore,
    /// The project file has no name.
    NoTarget(String),
    /// There is no build tool.
    NoBuildTool(String),
}

/// How a failure is to be repaired.
pub enum FixPlan {
    /// It is of another kind.
    NotHandled,
    /// By running the build tool.
    Rebuild {
        program: String,
        arguments: Vec<String>,
        target: String,
        vcxproj: String,
        /// The failures that this repairs.
        pairs: Vec<(String, String)>,
    },
}

/// The list with the pair at its end, unless it holds it.
pub open spec fn with_pair(
    list: Seq<(Seq<char>, Seq<char>)>,
    pair: (Seq<char>, Seq<char>),
) -> Seq<(Seq<char>, Seq<char>)> {
    if list.contains(pair) {
        list
    } else {
        list.push(pair)
    }
}

/// The failures found, each once, as project and object file; incomplete ones do not count.
pub open spec fn failure_pairs(found: Seq<(Seq<char>, Seq<char>)>) -> Seq<(Seq<char>, Seq<char>)>
    decreases found.len(),
{
    if found.len() == 0 {
        Seq::empty()
    } else {
        let rest = failure_pairs(found.drop_last());
        let (obj, vcxproj) = found.last();
        if obj.len() == 0 || vcxproj.len() == 0 {
            rest
        } else {
            with_pair(rest, (vcxproj, obj))
        }
    }
}

/// Whether one of the failures was repaired before.
pub open spec fn meets(a: Seq<(Seq<char>, Seq<char>)>, b: Seq<(Seq<char>, Seq<char>)>) -> bool {
    exists|i: int| 0 <= i < a.len() && b.contains(#[trigger] a[i])
}

/// The arguments of the build tool.
pub open spec fn rebuild_arguments(vcxproj: Seq<char>, build_config: Seq<char>) -> Seq<Seq<char>> {
    seq![
        vcxproj,
        "/t:Clean;Build"@,
        "/p:Configuration="@ + build_config,
        "/p:BuildProjectReferences=false"@,
    ]
}

/// Whether the list holds the pair.
fn has_pair(list: &Vec<(String, String)>, a: &str, b: &str) -> (r: bool)
    ensures
        r == error_patterns::pair_views(list@).contains((a@, b@)),
{
    let ghost all = error_patterns::pair_views(list@);
    for i in 0..list.len()
        invariant
            all == error_patterns::pair_views(list@),
            forall|j: int| 0 <= j < i ==> #[trigger] all[j] != (a@, b@),
    {
        assert(all[i as int] == (list@[i as int].0@, list@[i as int].1@));
        if text::same_text(list[i].0.as_str(), a) && text::same_text(list[i].1.as_str(), b) {
            assert(all[i as int] == (a@, b@));
            return true;
        }
    }
    false
}

/// Appends a pair.
fn push_pair(list: &mut Vec<(String, String)>, a: String, b: String)
    ensures
        error_patterns::pair_views(final(list)@) == error_patterns::pair_views(old(list)@).push(
            (a@, b@),
        ),
{
    list.push((a, b));
    assert(error_patterns::pair_views(list@) =~= error_patterns::pair_views(old(list)@).push(
        (a@, b@),
    ));
}

/// The failures found, each once.
fn collect_pairs(found: &Vec<(String, String)>) -> (r: Vec<(String, String)>)
    ensures
        error_patterns::pair_views(r@) == failure_pairs(error_patterns::pair_views(found@)),
{
    let ghost all = error_patterns::pair_views(found@);
    let mut pairs: Vec<(String, String)> = Vec::new();
    assert(error_patterns::pair_views(pairs@) =~= Seq::empty());
    for i in 0..found.len()
        invariant
            all == error_patterns::pair_views(found@),
            error_patterns::pair_views(pairs@) == failure_pairs(all.take(i as int)),
    {
        assert(all.take(i + 1).drop_last() =~= all.take(i as int));
        assert(all[i as int] == (found@[i as int].0@, found@[i as int].1@));
        let obj = found[i].0.as_str();
        let vcxproj = found[i].1.as_str();
        if !text::is_empty(obj) && !text::is_empty(vcxproj) && !has_pair(&pairs, vcxproj, obj) {
            push_pair(&mut pairs, found[i].1.clone(), found[i].0.clone());
        }
    }
    assert(all.take(all.len() as int) =~= all);
    pairs
}

/// The first failure found is the first of the pairs.
pub proof fn law_first_failure_is_rebuilt(found: Seq<(Seq<char>, Seq<char>)>, k: int)
    requires
        0 <= k < found.len(),
        found[k].0.len() > 0,
        found[k].1.len() > 0,
        forall|j: int| 0 <= j < k ==> (#[trigger] found[j]).0.len() == 0 || found[j].1.len() == 0,
    ensures
        failure_pairs(found).len() > 0,
        failure_pairs(found)[0] == (found[k].1, found[k].0),
    decreases found.len(),
{
    let rest = found.drop_last();
    if k < rest.len() {
        assert forall|j: int| 0 <= j < k implies (#[trigger] rest[j]).0.len() == 0
            || rest[j].1.len() == 0 by {
            assert(rest[j] == found[j]);
        }
        assert(rest[k] == found[k]);
        law_first_failure_is_rebuilt(rest, k);
    } else {
        assert forall|j: int| 0 <= j < rest.len() implies (#[trigger] rest[j]).0.len() == 0
            || rest[j].1.len() == 0 by {
            assert(rest[j] == found[j]);
        }
        lemma_no_pairs(rest);
    }
}

proof fn lemma_no_pairs(found: Seq<(Seq<char>, Seq<char>)>)
    requires
        forall|j: int|
            0 <= j < found.len() ==> (#[trigger] found[j]).0.len() == 0 || found[j].1.len() == 0,
    ensures
        failure_pairs(found).len() == 0,
    decreases found.len(),
{
    if found.len() > 0 {
        let rest = found.drop_last();
        assert forall|j: int| 0 <= j < rest.len() implies (#[trigger] rest[j]).0.len() == 0
            || rest[j].1.len() == 0 by {
            assert(rest[j] == found[j]);
        }
        assert(found[found.len() - 1].0.len() == 0 || found[found.len() - 1].1.len() == 0);
        lemma_no_pairs(rest);
    }
}

/// This is how the fixer repairs the linker failures that were found: it takes no part where there
/// are none, and gives up where one was repaired before, or the first project file has no name, or
/// there is no build tool; otherwise it builds the first project anew.
pub open spec fn is_plan(
    fixer: VcxprojTargetCleanFirstFixer,
    style: char,
    found: Seq<(Seq<char>, Seq<char>)>,
    build_config: Seq<char>,
    r: Result<FixPlan, FixError>,
) -> bool {
    let pairs = failure_pairs(found);
    if pairs.len() == 0 {
        r matches Ok(plan) && plan is NotHandled
    } else if meets(pairs, fixer.seen()) {
        r matches Err(e) && e is SeenBefore
    } else {
        match paths::path_file_stem(style, pairs[0].0) {
            None => r matches Err(e) && e matches FixError::NoTarget(s) && s@ == pairs[0].0,
            Some(stem) => match fixer.ms_build_path {
                Err(why) => r matches Err(e) && e matches FixError::NoBuildTool(s) && s@ == why@,
                Ok(tool) => {
                    &&& r matches Ok(plan)
                    &&& plan matches FixPlan::Rebuild {
                        program,
                        arguments,
                        target,
                        vcxproj,
                        pairs: repaired,
                    }
                    &&& program@ == tool@
                    &&& text::texts(arguments@) == rebuild_arguments(pairs[0].0, build_config)
                    &&& target@ == stem
                    &&& vcxproj@ == pairs[0].0
                    &&& error_patterns::pair_views(repaired@) == pairs
                },
            },
        }
    }
}

impl VcxprojTargetCleanFirstFixer {
    /// The failures that were repaired.
    pub open spec fn seen(self) -> Seq<(Seq<char>, Seq<char>)> {
        error_patterns::pair_views(self.seen_pairs@)
    }

    /// A fixer that has repaired nothing yet.
    pub fn new(ms_build_path: Result<String, String>) -> (r: Self)
        ensures
            r.seen() == Seq::<(Seq<char>, Seq<char>)>::empty(),
            r.ms_build_path == ms_build_path,
    {
        let r = VcxprojTargetCleanFirstFixer { seen_pairs: Vec::new(), ms_build_path };
        assert(r.seen() =~= Seq::empty());
        r
    }

    /// The target that a project file builds: its name without the extension.
    pub fn parse_target(style: &PathStyle, vcxproj: &str) -> (r: Result<String, FixError>)
        ensures
            match paths::path_file_stem(style@, vcxproj@) {
                Some(stem) => r matches Ok(target) && target@ == stem,
                None => r matches Err(e) && e matches FixError::NoTarget(s) && s@ == vcxproj@,
            },
    {
        match paths::file_stem(style, vcxproj) {
            Some(stem) => Ok(stem),
            None => Err(FixError::NoTarget(vcxproj.to_owned())),
        }
    }

    /// How the linker failures found in the output of a build are to be repaired.
    pub fn plan_fix(
        &self,
        style: &PathStyle,
        found: &Vec<(String, String)>,
        ctx: &FixContext<'_>,
    ) -> (r: Result<FixPlan, FixError>)
        ensures
            is_plan(*self, style@, error_patterns::pair_views(found@), ctx.build_config@, r),
    {
        let pairs = collect_pairs(found);
        let ghost all = error_patterns::pair_views(pairs@);
        if pairs.len() == 0 {
            return Ok(FixPlan::NotHandled);
        }
        for i in 0..pairs.len()
            invariant
                all == error_patterns::pair_views(pairs@),
                all == failure_pairs(error_patterns::pair_views(found@)),
                all.len() > 0,
                forall|j: int| 0 <= j < i ==> !self.seen().contains(#[trigger] all[j]),
        {
            assert(all[i as int] == (pairs@[i as int].0@, pairs@[i as int].1@));
            if has_pair(&self.seen_pairs, pairs[i].0.as_str(), pairs[i].1.as_str()) {
                assert(self.seen().contains(all[i as int]));
                return Err(FixError::SeenBefore);
            }
        }
        assert(!meets(all, self.seen()));
        assert(all[0] == (pairs@[0].0@, pairs@[0].1@));
        let vcxproj = pairs[0].0.clone();
        let target = match Self::parse_target(style, vcxproj.as_str()) {
            Ok(target) => target,
            Err(e) => {
                return Err(e);
            },
        };
        let program = match &self.ms_build_path {
            Ok(tool) => tool.clone(),
            Err(why) => {
                return Err(FixError::NoBuildTool(why.clone()));
            },
        };
        let mut configuration = "/p:Configuration=".to_owned();
        configuration.append(ctx.build_config);
        let mut arguments: Vec<String> = Vec::new();
        text::push_text(&mut arguments, vcxproj.clone());
        text::push_text(&mut arguments, "/t:Clean;Build".to_owned());
        text::push_text(&mut arguments, configuration);
        text::push_text(&mut arguments, "/p:BuildProjectReferences=false".to_owned());
        assert(text::texts(arguments@) =~= rebuild_arguments(vcxproj@, ctx.build_config@));
        Ok(FixPlan::Rebuild { program, arguments, target, vcxproj, pairs })
    }

    /// How the failure of a build with this output is to be repaired.
    pub fn try_fix(&self, style: &PathStyle, output: &str, ctx: &FixContext<'_>) -> (r: Result<
        FixPlan,
        FixError,
    >)
        ensures
            match error_patterns::linker_failures_in(output@) {
                Some(found) => is_plan(*self, style@, found, ctx.build_config@, r),
                None => r matches Err(e) && e is NoPattern,
            },
    {
        match error_patterns::lnk_obj_vcxproj_regex(output) {
            Some(found) => self.plan_fix(style, &found, ctx),
            None => Err(FixError::NoPattern),
        }
    }

    /// Notes that the failures were repaired.
    pub fn record_fixed(&mut self, pairs: &Vec<(String, String)>)
        ensures
            final(self).seen() == old(self).seen() + error_patterns::pair_views(pairs@),
            final(self).ms_build_path == old(self).ms_build_path,
    {
        let ghost start = self.seen();
        let ghost all = error_patterns::pair_views(pairs@);
        assert(start =~= start + all.take(0));
        for i in 0..pairs.len()
            invariant
                all == error_patterns::pair_views(pairs@),
                self.seen() == start + all.take(i as int),
                self.ms_build_path == old(self).ms_build_path,
        {
            push_pair(&mut self.seen_pairs, pairs[i].0.clone(), pairs[i].1.clone());
            assert(start + all.take(i + 1) =~= (start + all.take(i as int)).push(all[i as int]));
        }
        assert(all.take(all.len() as int) =~= all);
    }
}

/// A failure that was repaired is not repaired again: where it is found once more, the repair
/// is given up.
pub proof fn law_repaired_failures_are_not_repaired_again(
    seen: Seq<(Seq<char>, Seq<char>)>,
    repaired: Seq<(Seq<char>, Seq<char>)>,
    pairs: Seq<(Seq<char>, Seq<char>)>,
    i: int,
)
    requires
        0 <= i < pairs.len(),
        repaired.contains(pairs[i]),
    ensures
        meets(pairs, seen + repaired),
{
    let k = choose|k: int| 0 <= k < repaired.len() && repaired[k] == pairs[i];
    assert((seen + repaired)[seen.len() + k] == pairs[i]);
}

proof fn lemma_failure_pairs(found: Seq<(Seq<char>, Seq<char>)>)
    ensures
        failure_pairs(found).no_duplicates(),
        forall|obj: Seq<char>, vcxproj: Seq<char>| #[trigger]
            failure_pairs(found).contains((vcxproj, obj)) <==> found.contains((obj, vcxproj))
                && obj.len() > 0 && vcxproj.len() > 0,
    decreases found.len(),
{
    if found.len() > 0 {
        let front = found.drop_last();
        let rest = failure_pairs(front);
        let all = failure_pairs(found);
        let (obj, vcxproj) = found.last();
        lemma_failure_pairs(front);
        assert(found[found.len() - 1] == found.last());
        assert forall|o: Seq<char>, v: Seq<char>| #[trigger]
            all.contains((v, o)) <==> found.contains((o, v)) && o.len() > 0 && v.len() > 0 by {
            assert(rest.contains((v, o)) <==> front.contains((o, v)) && o.len() > 0 && v.len()
                > 0);
            if front.contains((o, v)) {
                assert(found[front.index_of((o, v))] == (o, v));
            }
            if found.contains((o, v)) && (o, v) != found.last() {
                assert(front[found.index_of((o, v))] == (o, v));
            }
            if rest.contains((v, o)) {
                assert(all[rest.index_of((v, o))] == (v, o));
            }
            if all.len() > rest.len() {
                assert(all[rest.len() as int] == (vcxproj, obj));
            }
            if all.contains((v, o)) && !rest.contains((v, o)) {
                let i = all.index_of((v, o));
                assert(i == rest.len()) by {
                    if i < rest.len() {
                        assert(rest[i] == (v, o));
                    }
                }
            }
        }
        if all.len() > rest.len() {
            assert forall|i: int, j: int|
                0 <= i < all.len() && 0 <= j < all.len() && i != j implies all[i] != all[j] by {
                if i < rest.len() && j < rest.len() {
                    assert(rest[i] != rest[j]);
                } else if i < rest.len() {
                    assert(rest.contains(rest[i]));
                } else {
                    assert(rest.contains(rest[j]));
                }
            }
        }
    }
}

/// The failure at `k` names an object and a project file, and none before it does.
pub open spec fn is_first_failure(found: Seq<(String, String)>, k: int) -> bool {
    &&& 0 <= k < found.len()
    &&& found[k].0@.len() > 0 && found[k].1@.len() > 0
    &&& forall|j: int| 0 <= j < k ==> (#[trigger] found[j]).0@.len() == 0 || found[j].1@.len() == 0
}

/// A failed build is repaired by cleaning and building the project of the first failure alone, in
/// its configuration, and that counts for all failures that name both files, each once. Nothing is
/// repaired where there are none; where one of them was repaired before, it is given up.
pub proof fn law_first_project_is_rebuilt(
    fixer: &VcxprojTargetCleanFirstFixer,
    style: &PathStyle,
    found: &Vec<(String, String)>,
    ctx: &FixContext<'_>,
    k: int,
    r: Result<FixPlan, FixError>,
)
    requires
        call_ensures(VcxprojTargetCleanFirstFixer::plan_fix, (fixer, style, found, ctx), r),
    ensures
        r matches Ok(FixPlan::NotHandled) <==> forall|j: int|
            0 <= j < found@.len() ==> (#[trigger] found@[j]).0@.len() == 0 || found@[j].1@.len()
                == 0,
        r matches Err(FixError::SeenBefore) <==> exists|j: int|
            0 <= j < found@.len() && (#[trigger] found@[j]).0@.len() > 0 && found@[j].1@.len() > 0
                && fixer.seen().contains((found@[j].1@, found@[j].0@)),
        r matches Ok(FixPlan::Rebuild { program, arguments, target, vcxproj, pairs }) ==> {
            let repaired = error_patterns::pair_views(pairs@);
            &&& fixer.ms_build_path matches Ok(tool)
            &&& program@ == tool@
            &&& text::texts(arguments@) == seq![
                vcxproj@,
                "/t:Clean;Build"@,
                "/p:Configuration="@ + ctx.build_config@,
                "/p:BuildProjectReferences=false"@,
            ]
            &&& paths::path_file_stem(style@, vcxproj@) == Some(target@)
            &&& is_first_failure(found@, k) ==> vcxproj@ == found@[k].1@
            &&& repaired.no_duplicates()
            &&& forall|v: Seq<char>, o: Seq<char>| #[trigger]
                repaired.contains((v, o)) <==> error_patterns::pair_views(found@).contains((o, v))
                    && o.len() > 0 && v.len() > 0
        },
        is_first_failure(found@, k) && !(r matches Err(FixError::SeenBefore)) ==> (r is Ok
            <==> fixer.ms_build_path is Ok && paths::path_file_stem(style@, found@[k].1@) is Some),
{
    let all = error_patterns::pair_views(found@);
    let pairs = failure_pairs(all);
    lemma_failure_pairs(all);
    assert(all.len() == found@.len());
    assert forall|j: int| 0 <= j < found@.len() implies #[trigger] all[j] == (
        found@[j].0@,
        found@[j].1@,
    ) by {}
    if is_first_failure(found@, k) {
        assert forall|j: int| 0 <= j < k implies (#[trigger] all[j]).0.len() == 0
            || all[j].1.len() == 0 by {
            assert(found@[j].0@.len() == 0 || found@[j].1@.len() == 0);
        }
        law_first_failure_is_rebuilt(all, k);
    }
    if pairs.len() > 0 {
        let (v, o) = pairs[0];
        assert(pairs.contains((v, o)));
        let j = all.index_of((o, v));
        assert(found@[j].0@.len() > 0 && found@[j].1@.len() > 0);
    }
    assert forall|j: int|
        0 <= j < found@.len() && (#[trigger] found@[j]).0@.len() > 0 && found@[j].1@.len()
            > 0 implies pairs.contains((found@[j].1@, found@[j].0@)) by {
        assert(all[j] == (found@[j].0@, found@[j].1@));
        assert(all.contains((found@[j].0@, found@[j].1@)));
    }
    if meets(pairs, fixer.seen()) {
        let i = choose|i: int| 0 <= i < pairs.len() && fixer.seen().contains(#[trigger] pairs[i]);
        let (v, o) = pairs[i];
        assert(pairs.contains((v, o)));
        let j = all.index_of((o, v));
        assert(found@[j].0@.len() > 0 && found@[j].1@.len() > 0 && fixer.seen().contains(
            (found@[j].1@, found@[j].0@),
        ));
    }
    if exists|j: int|
        0 <= j < found@.len() && (#[trigger] found@[j]).0@.len() > 0 && found@[j].1@.len() > 0
            && fixer.seen().contains((found@[j].1@, found@[j].0@)) {
        let j = choose|j: int|
            0 <= j < found@.len() && (#[trigger] found@[j]).0@.len() > 0 && found@[j].1@.len() > 0
                && fixer.seen().contains((found@[j].1@, found@[j].0@));
        let pair = (found@[j].1@, found@[j].0@);
        let i = pairs.index_of(pair);
        assert(fixer.seen().contains(pairs[i]));
    }
}

} // verus!
