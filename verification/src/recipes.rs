//! Built-in operating recipes: named, scriptable command lines for common
//! rescue and cleanup situations.
use vstd::prelude::*;
use crate::text::has_prefix;

verus! {

/// A named recipe: what it is for, the command that runs it, and its risk.
#[derive(Debug, Clone, PartialEq, Eq)]
pub struct Recipe {
    pub name: &'static str,
    pub description: &'static str,
    pub command: &'static str,
    pub risk: &'static str,
}

/// The four texts of a recipe, as characters.
pub open spec fn recipe_view(r: Recipe) -> (Seq<char>, Seq<char>, Seq<char>, Seq<char>) {
    (r.name@, r.description@, r.command@, r.risk@)
}

/// The built-in recipes, in the order they are listed.
pub open spec fn builtin_recipes_spec() -> Seq<(Seq<char>, Seq<char>, Seq<char>, Seq<char>)> {
    seq![
        (
            "panic-stop"@,
            "停止项目活动容器，适合临时释放端口、CPU 或快速止血。"@,
            "hugdocker stop <project> --dry-run"@,
            "medium"@,
        ),
        (
            "rescue-unhealthy"@,
            "对 unhealthy/restarting 项目生成恢复重启预案。"@,
            "hugdocker rescue <project> --dry-run"@,
            "low"@,
        ),
        (
            "preflight-delete"@,
            "删除前预演容器、网络、卷、镜像影响范围。"@,
            "hugdocker plan purge <project>"@,
            "high"@,
        ),
        (
            "safe-cleanup"@,
            "清理 stopped containers、unused networks 和 dangling images，默认排除 volumes。"@,
            "hugdocker safe-prune --dry-run"@,
            "medium"@,
        ),
    ]
}

/// The built-in recipes.
pub fn builtin_recipes() -> (r: Vec<Recipe>)
    ensures
        r@.len() == builtin_recipes_spec().len(),
        forall|i: int| 0 <= i < r@.len() ==> recipe_view(#[trigger] r@[i]) == builtin_recipes_spec()[i],
{
    let r = vec![
        Recipe {
            name: "panic-stop",
            description: "停止项目活动容器，适合临时释放端口、CPU 或快速止血。",
            command: "hugdocker stop <project> --dry-run",
            risk: "medium",
        },
        Recipe {
            name: "rescue-unhealthy",
            description: "对 unhealthy/restarting 项目生成恢复重启预案。",
            command: "hugdocker rescue <project> --dry-run",
            risk: "low",
        },
        Recipe {
            name: "preflight-delete",
            description: "删除前预演容器、网络、卷、镜像影响范围。",
            command: "hugdocker plan purge <project>",
            risk: "high",
        },
        Recipe {
            name: "safe-cleanup",
            description: "清理 stopped containers、unused networks 和 dangling images，默认排除 volumes。",
            command: "hugdocker safe-prune --dry-run",
            risk: "medium",
        },
    ];
    r
}

/// Every built-in recipe is a `hugdocker` command line, so it can be run
/// from a script as it stands.
pub proof fn lemma_recipes_are_hugdocker_commands()
    ensures
        forall|i: int|
            0 <= i < builtin_recipes_spec().len() ==> has_prefix(
                #[trigger] builtin_recipes_spec()[i].2,
                "hugdocker "@,
            ),
{
    reveal_strlit("hugdocker ");
    reveal_strlit("hugdocker stop <project> --dry-run");
    reveal_strlit("hugdocker rescue <project> --dry-run");
    reveal_strlit("hugdocker plan purge <project>");
    reveal_strlit("hugdocker safe-prune --dry-run");
    let s = builtin_recipes_spec();
    assert(s[0].2.subrange(0, 10) =~= "hugdocker "@);
    assert(s[1].2.subrange(0, 10) =~= "hugdocker "@);
    assert(s[2].2.subrange(0, 10) =~= "hugdocker "@);
    assert(s[3].2.subrange(0, 10) =~= "hugdocker "@);
}

} // verus!
