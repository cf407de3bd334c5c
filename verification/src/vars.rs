//! The variable store: names mapped to values that are either immediate or
//! deferred, with built-in defaults for the reserved names.

use crate::text::{chars_of, is_space, is_space_char, string_of_range, trim, trim_bounds};
use vstd::hash_map::StringHashMap;
use vstd::prelude::*;
use vstd::string::StringExecFns;

verus! {

/// A variable: its value, and whether the value is expanded again each time
/// it is fetched.
#[derive(Debug)]
pub struct Var {
    pub value: String,
    pub recursive: bool,
}

/// What a variable is to the contracts.
pub struct VarView {
    pub value: Seq<char>,
    pub recursive: bool,
}

impl View for Var {
    type V = VarView;

    open spec fn view(&self) -> VarView {
        VarView { value: self.value@, recursive: self.recursive }
    }
}

impl Var {
    /// The variable with the value `value`, deferred where `recursive` is set.
    pub fn new(value: &str, recursive: bool) -> (out: Self)
        ensures
            out@ == (VarView { value: value@, recursive }),
    {
        Var { value: String::from_str(value), recursive }
    }
}

/// The variable that an unknown name stands for.
pub open spec fn blank() -> VarView {
    VarView { value: Seq::empty(), recursive: false }
}

/// The reserved names with their default values; the flag marks a value that
/// is deferred.
pub open spec fn default_table() -> Seq<(Seq<char>, Seq<char>, bool)> {
    seq![
        (".RECIPEPREFIX"@, "\t"@, false),
        ("SHELL"@, "/bin/sh"@, false),
        (".SHELLFLAGS"@, "-c"@, false),
        ("SUFFIXES"@, ".C .F .S .c .cc .cpp .def .f .m .mod .p .r .s"@, false),
        (".SUFFIXES"@, ".C .F .S .c .cc .cpp .def .f .m .mod .p .r .s"@, false),
        ("AR"@, "ar"@, false),
        ("ARFLAGS"@, "rv"@, false),
        ("AS"@, "as"@, false),
        ("CC"@, "cc"@, false),
        ("CO"@, "co"@, false),
        ("CTANGLE"@, "ctangle"@, false),
        ("CWEAVE"@, "cweave"@, false),
        ("CXX"@, "c++"@, false),
        ("FC"@, "f77"@, false),
        ("GET"@, "get"@, false),
        ("LD"@, "ld"@, false),
        ("LEX"@, "lex"@, false),
        ("LINT"@, "lint"@, false),
        ("M2C"@, "m2c"@, false),
        ("OBJC"@, "cc"@, false),
        ("PC"@, "pc"@, false),
        ("RM"@, "rm -f"@, false),
        ("TANGLE"@, "tangle"@, false),
        ("TEX"@, "tex"@, false),
        ("WEAVE"@, "weave"@, false),
        ("YACC"@, "yacc"@, false),
        ("OUTPUT_OPTION"@, "-o $@"@, true),
        ("CPP"@, "$(CC) -E"@, true),
        ("F77"@, "$(FC)"@, true),
        ("F77FLAGS"@, "$(FFLAGS)"@, true),
        ("LEX.m"@, "$(LEX) $(LFLAGS) -t"@, true),
        ("YACC.m"@, "$(YACC) $(YFLAGS)"@, true),
        ("YACC.y"@, "$(YACC) $(YFLAGS)"@, true),
        ("COMPILE.C"@, "$(COMPILE.cc)"@, true),
        ("COMPILE.F"@, "$(FC) $(FFLAGS) $(CPPFLAGS) $(TARGET_ARCH) -c"@, true),
        ("COMPILE.S"@, "$(CC) $(ASFLAGS) $(CPPFLAGS) $(TARGET_MACH) -c"@, true),
        ("COMPILE.c"@, "$(CC) $(CFLAGS) $(CPPFLAGS) $(TARGET_ARCH) -c"@, true),
        ("COMPILE.cc"@, "$(CXX) $(CXXFLAGS) $(CPPFLAGS) $(TARGET_ARCH) -c"@, true),
        ("COMPILE.cpp"@, "$(COMPILE.cc)"@, true),
        ("COMPILE.def"@, "$(M2C) $(M2FLAGS) $(DEFFLAGS) $(TARGET_ARCH)"@, true),
        ("COMPILE.f"@, "$(FC) $(FFLAGS) $(TARGET_ARCH) -c"@, true),
        ("COMPILE.m"@, "$(OBJC) $(OBJCFLAGS) $(CPPFLAGS) $(TARGET_ARCH) -c"@, true),
        ("COMPILE.mod"@, "$(M2C) $(M2FLAGS) $(MODFLAGS) $(TARGET_ARCH)"@, true),
        ("COMPILE.p"@, "$(PC) $(PFLAGS) $(CPPFLAGS) $(TARGET_ARCH) -c"@, true),
        ("COMPILE.r"@, "$(FC) $(FFLAGS) $(RFLAGS) $(TARGET_ARCH) -c"@, true),
        ("COMPILE.s"@, "$(AS) $(ASFLAGS) $(TARGET_MACH)"@, true),
        ("LINK.C"@, "$(LINK.cc)"@, true),
        ("LINK.F"@, "$(FC) $(FFLAGS) $(CPPFLAGS) $(LDFLAGS) $(TARGET_ARCH)"@, true),
        ("LINK.S"@, "$(CC) $(ASFLAGS) $(CPPFLAGS) $(LDFLAGS) $(TARGET_MACH)"@, true),
        ("LINK.c"@, "$(CC) $(CFLAGS) $(CPPFLAGS) $(LDFLAGS) $(TARGET_ARCH)"@, true),
        ("LINK.cc"@, "$(CXX) $(CXXFLAGS) $(CPPFLAGS) $(LDFLAGS) $(TARGET_ARCH)"@, true),
        ("LINK.cpp"@, "$(LINK.cc)"@, true),
        ("LINK.f"@, "$(FC) $(FFLAGS) $(LDFLAGS) $(TARGET_ARCH)"@, true),
        ("LINK.m"@, "$(OBJC) $(OBJCFLAGS) $(CPPFLAGS) $(LDFLAGS) $(TARGET_ARCH)"@, true),
        ("LINK.o"@, "$(CC) $(LDFLAGS) $(TARGET_ARCH)"@, true),
        ("LINK.p"@, "$(PC) $(PFLAGS) $(CPPFLAGS) $(LDFLAGS) $(TARGET_ARCH)"@, true),
        ("LINK.r"@, "$(FC) $(FFLAGS) $(RFLAGS) $(LDFLAGS) $(TARGET_ARCH)"@, true),
        ("LINK.s"@, "$(CC) $(ASFLAGS) $(LDFLAGS) $(TARGET_MACH)"@, true),
        ("LINT.c"@, "$(LINT) $(LINTFLAGS) $(CPPFLAGS) $(TARGET_ARCH)"@, true),
        ("PREPROCESS.F"@, "$(FC) $(FFLAGS) $(CPPFLAGS) $(TARGET_ARCH) -F"@, true),
        ("PREPROCESS.S"@, "$(CC) -E $(CPPFLAGS)"@, true),
        ("PREPROCESS.r"@, "$(FC) $(FFLAGS) $(RFLAGS) $(TARGET_ARCH) -F"@, true),
    ]
}

/// The map that holds the first `n` rows of `table`, a later row replacing an
/// earlier one of the same name.
pub open spec fn table_map(table: Seq<(Seq<char>, Seq<char>, bool)>, n: nat) -> Map<
    Seq<char>,
    VarView,
>
    decreases n,
{
    if n == 0 || n > table.len() {
        Map::empty()
    } else {
        let row = table[n - 1];
        table_map(table, (n - 1) as nat).insert(row.0, VarView { value: row.1, recursive: row.2 })
    }
}

/// The defaults of the reserved names.
pub open spec fn defaults() -> Map<Seq<char>, VarView> {
    table_map(default_table(), default_table().len())
}

/// What a stored map of variables is to the contracts.
pub open spec fn views_of(m: Map<Seq<char>, Var>) -> Map<Seq<char>, VarView> {
    m.map_values(|v: Var| v@)
}

/// What a table of rows is to the contracts.
pub open spec fn rows_view(rows: Seq<(&'static str, &'static str, bool)>) -> Seq<
    (Seq<char>, Seq<char>, bool),
> {
    rows.map_values(|r: (&'static str, &'static str, bool)| (r.0@, r.1@, r.2))
}

/// The rows of the table of defaults.
fn default_rows() -> (rows: Vec<(&'static str, &'static str, bool)>)
    ensures
        rows_view(rows@) == default_table(),
{
    let rows = vec![
        (".RECIPEPREFIX", "\t", false),
        ("SHELL", "/bin/sh", false),
        (".SHELLFLAGS", "-c", false),
        ("SUFFIXES", ".C .F .S .c .cc .cpp .def .f .m .mod .p .r .s", false),
        (".SUFFIXES", ".C .F .S .c .cc .cpp .def .f .m .mod .p .r .s", false),
        ("AR", "ar", false),
        ("ARFLAGS", "rv", false),
        ("AS", "as", false),
        ("CC", "cc", false),
        ("CO", "co", false),
        ("CTANGLE", "ctangle", false),
        ("CWEAVE", "cweave", false),
        ("CXX", "c++", false),
        ("FC", "f77", false),
        ("GET", "get", false),
        ("LD", "ld", false),
        ("LEX", "lex", false),
        ("LINT", "lint", false),
        ("M2C", "m2c", false),
        ("OBJC", "cc", false),
        ("PC", "pc", false),
        ("RM", "rm -f", false),
        ("TANGLE", "tangle", false),
        ("TEX", "tex", false),
        ("WEAVE", "weave", false),
        ("YACC", "yacc", false),
        ("OUTPUT_OPTION", "-o $@", true),
        ("CPP", "$(CC) -E", true),
        ("F77", "$(FC)", true),
        ("F77FLAGS", "$(FFLAGS)", true),
        ("LEX.m", "$(LEX) $(LFLAGS) -t", true),
        ("YACC.m", "$(YACC) $(YFLAGS)", true),
        ("YACC.y", "$(YACC) $(YFLAGS)", true),
        ("COMPILE.C", "$(COMPILE.cc)", true),
        ("COMPILE.F", "$(FC) $(FFLAGS) $(CPPFLAGS) $(TARGET_ARCH) -c", true),
        ("COMPILE.S", "$(CC) $(ASFLAGS) $(CPPFLAGS) $(TARGET_MACH) -c", true),
        ("COMPILE.c", "$(CC) $(CFLAGS) $(CPPFLAGS) $(TARGET_ARCH) -c", true),
        ("COMPILE.cc", "$(CXX) $(CXXFLAGS) $(CPPFLAGS) $(TARGET_ARCH) -c", true),
        ("COMPILE.cpp", "$(COMPILE.cc)", true),
        ("COMPILE.def", "$(M2C) $(M2FLAGS) $(DEFFLAGS) $(TARGET_ARCH)", true),
        ("COMPILE.f", "$(FC) $(FFLAGS) $(TARGET_ARCH) -c", true),
        ("COMPILE.m", "$(OBJC) $(OBJCFLAGS) $(CPPFLAGS) $(TARGET_ARCH) -c", true),
        ("COMPILE.mod", "$(M2C) $(M2FLAGS) $(MODFLAGS) $(TARGET_ARCH)", true),
        ("COMPILE.p", "$(PC) $(PFLAGS) $(CPPFLAGS) $(TARGET_ARCH) -c", true),
        ("COMPILE.r", "$(FC) $(FFLAGS) $(RFLAGS) $(TARGET_ARCH) -c", true),
        ("COMPILE.s", "$(AS) $(ASFLAGS) $(TARGET_MACH)", true),
        ("LINK.C", "$(LINK.cc)", true),
        ("LINK.F", "$(FC) $(FFLAGS) $(CPPFLAGS) $(LDFLAGS) $(TARGET_ARCH)", true),
        ("LINK.S", "$(CC) $(ASFLAGS) $(CPPFLAGS) $(LDFLAGS) $(TARGET_MACH)", true),
        ("LINK.c", "$(CC) $(CFLAGS) $(CPPFLAGS) $(LDFLAGS) $(TARGET_ARCH)", true),
        ("LINK.cc", "$(CXX) $(CXXFLAGS) $(CPPFLAGS) $(LDFLAGS) $(TARGET_ARCH)", true),
        ("LINK.cpp", "$(LINK.cc)", true),
        ("LINK.f", "$(FC) $(FFLAGS) $(LDFLAGS) $(TARGET_ARCH)", true),
        ("LINK.m", "$(OBJC) $(OBJCFLAGS) $(CPPFLAGS) $(LDFLAGS) $(TARGET_ARCH)", true),
        ("LINK.o", "$(CC) $(LDFLAGS) $(TARGET_ARCH)", true),
        ("LINK.p", "$(PC) $(PFLAGS) $(CPPFLAGS) $(LDFLAGS) $(TARGET_ARCH)", true),
        ("LINK.r", "$(FC) $(FFLAGS) $(RFLAGS) $(LDFLAGS) $(TARGET_ARCH)", true),
        ("LINK.s", "$(CC) $(ASFLAGS) $(LDFLAGS) $(TARGET_MACH)", true),
        ("LINT.c", "$(LINT) $(LINTFLAGS) $(CPPFLAGS) $(TARGET_ARCH)", true),
        ("PREPROCESS.F", "$(FC) $(FFLAGS) $(CPPFLAGS) $(TARGET_ARCH) -F", true),
        ("PREPROCESS.S", "$(CC) -E $(CPPFLAGS)", true),
        ("PREPROCESS.r", "$(FC) $(FFLAGS) $(RFLAGS) $(TARGET_ARCH) -F", true),
    ];
    assert(rows_view(rows@) =~= default_table());
    rows
}

/// Whether `c` may not stand in a variable's name.
pub open spec fn bad_char(c: char) -> bool {
    is_space(c) || c == ':' || c == '#' || c == '='
}

/// Whether `name` can be assigned to: it holds no whitespace and none of `:`, `#`, `=`.
pub open spec fn valid_name(name: Seq<char>) -> bool {
    forall|i: int| 0 <= i < name.len() ==> !bad_char(#[trigger] name[i])
}

/// Index of the first character of `name` at or after `i` that may not stand
/// in a name, or the length of `name` where there is none.
pub open spec fn first_bad(name: Seq<char>, i: int) -> int
    decreases name.len() - i,
{
    if 0 <= i < name.len() && !bad_char(name[i]) {
        first_bad(name, i + 1)
    } else {
        i
    }
}

/// The message that rejects a name because of its character `c`.
pub open spec fn name_error(c: char) -> Seq<char> {
    if is_space(c) {
        "Variable contains whitespace."@
    } else {
        "Variable contains bad character '"@ + seq![c] + "'."@
    }
}

/// What `get` answers for `name` from the stored variables: the stored
/// variable; for a reserved name that is unset or stored with an empty value,
/// its default; for any other unset name, the blank variable.
pub open spec fn lookup(stored: Map<Seq<char>, VarView>, name: Seq<char>) -> VarView {
    let key = trim(name);
    if stored.contains_key(key) && (stored[key].value.len() > 0 || !defaults().contains_key(key)) {
        stored[key]
    } else if defaults().contains_key(key) {
        defaults()[key]
    } else {
        blank()
    }
}

/// The stored variables after the pairs `init[..n]` were assigned in order as
/// immediate variables, on top of `start`, each pair with a name that cannot
/// be assigned to being passed over.
pub open spec fn assign_all(
    start: Map<Seq<char>, VarView>,
    init: Seq<(Seq<char>, Seq<char>)>,
    n: nat,
) -> Map<Seq<char>, VarView>
    decreases n,
{
    if n == 0 || n > init.len() {
        start
    } else {
        let before = assign_all(start, init, (n - 1) as nat);
        let key = trim(init[n - 1].0);
        if valid_name(key) {
            before.insert(key, VarView { value: init[n - 1].1, recursive: false })
        } else {
            before
        }
    }
}

/// The stored variables after the pairs `env[..n]` of an environment were
/// taken over in order as immediate variables: as `assign_all` does, but a
/// pair that names `SHELL` is passed over too.
pub open spec fn inherit_all(env: Seq<(Seq<char>, Seq<char>)>, n: nat) -> Map<Seq<char>, VarView>
    decreases n,
{
    if n == 0 || n > env.len() {
        Map::empty()
    } else {
        let before = inherit_all(env, (n - 1) as nat);
        let key = trim(env[n - 1].0);
        if valid_name(key) && key != "SHELL"@ {
            before.insert(key, VarView { value: env[n - 1].1, recursive: false })
        } else {
            before
        }
    }
}

/// What an array of pairs of strings is to the contracts.
pub open spec fn pairs_view(init: Seq<(&str, &str)>) -> Seq<(Seq<char>, Seq<char>)> {
    init.map_values(|p: (&str, &str)| (p.0@, p.1@))
}

/// What a list of owned pairs of strings is to the contracts.
pub open spec fn env_view(env: Seq<(String, String)>) -> Seq<(Seq<char>, Seq<char>)> {
    env.map_values(|p: (String, String)| (p.0@, p.1@))
}

/// `first_bad` stops within the name, passes over characters that may stand
/// in a name, and stops at one that may not; a name can be assigned to just
/// where it runs to the end.
pub proof fn lemma_first_bad_bounds(name: Seq<char>, i: int)
    requires
        0 <= i <= name.len(),
    ensures
        i <= first_bad(name, i) <= name.len(),
        forall|k: int| i <= k < first_bad(name, i) ==> !bad_char(#[trigger] name[k]),
        first_bad(name, i) < name.len() ==> bad_char(name[first_bad(name, i)]),
        i == 0 ==> (valid_name(name) <==> first_bad(name, 0) == name.len()),
    decreases name.len() - i,
{
    if i < name.len() && !bad_char(name[i]) {
        lemma_first_bad_bounds(name, i + 1);
    }
}

/// Whether every name of `stored` can be assigned to and has no whitespace
/// around it.
pub open spec fn names_valid(stored: Map<Seq<char>, VarView>) -> bool {
    forall|k: Seq<char>| #[trigger] stored.contains_key(k) ==> valid_name(k) && trim(k) == k
}

/// The variables of a makefile.
pub struct Vars {
    map: StringHashMap<Var>,
    defaults: StringHashMap<Var>,
    blank: Var,
}

impl View for Vars {
    type V = Map<Seq<char>, VarView>;

    closed spec fn view(&self) -> Map<Seq<char>, VarView> {
        views_of(self.map@)
    }
}

impl Vars {
    #[verifier::type_invariant]
    spec fn wf(self) -> bool {
        &&& views_of(self.defaults@) == defaults()
        &&& self.blank@ == blank()
        &&& names_valid(views_of(self.map@))
    }

    /// A store with no variable assigned: every name stands for its default
    /// or for the blank variable.
    fn empty() -> (out: Self)
        ensures
            out@ == Map::<Seq<char>, VarView>::empty(),
    {
        let rows = default_rows();
        let mut defaults: StringHashMap<Var> = StringHashMap::new();
        let mut i: usize = 0;
        assert(views_of(defaults@) =~= table_map(default_table(), 0));
        while i < rows.len()
            invariant
                i <= rows.len(),
                rows_view(rows@) == default_table(),
                views_of(defaults@) == table_map(default_table(), i as nat),
            decreases rows.len() - i,
        {
            let row = rows[i];
            let var = Var { value: String::from_str(row.1), recursive: row.2 };
            proof {
                assert(rows_view(rows@)[i as int] == (row.0@, row.1@, row.2));
                assert(views_of(defaults@.insert(row.0@, var)) =~= views_of(defaults@).insert(
                    row.0@,
                    var@,
                ));
            }
            defaults.insert(String::from_str(row.0), var);
            i += 1;
        }
        let map: StringHashMap<Var> = StringHashMap::new();
        assert(views_of(map@) =~= Map::<Seq<char>, VarView>::empty());
        Vars { map, defaults, blank: Var { value: String::new(), recursive: false } }
    }

    /// A store in which the pairs of `init` were assigned in order as
    /// immediate variables; a pair whose name cannot be assigned to is passed
    /// over.
    pub fn new<const N: usize>(init: [(&str, &str); N]) -> (out: Self)
        ensures
            out@ == assign_all(Map::empty(), pairs_view(init@), N as nat),
            names_valid(out@),
    {
        let mut vars = Vars::empty();
        let mut i: usize = 0;
        while i < N
            invariant
                i <= N,
                vars@ == assign_all(Map::empty(), pairs_view(init@), i as nat),
                names_valid(vars@),
            decreases N - i,
        {
            let pair = init[i];
            assert(pairs_view(init@)[i as int] == (pair.0@, pair.1@));
            let _ = vars.set(pair.0, pair.1, false);
            i += 1;
        }
        vars
    }

    /// A store that takes over the pairs of an environment in order as
    /// immediate variables. A pair that names `SHELL`, or whose name cannot be
    /// assigned to, is passed over.
    pub fn from_env(env: &Vec<(String, String)>) -> (out: Self)
        ensures
            out@ == inherit_all(env_view(env@), env.len() as nat),
            names_valid(out@),
    {
        let mut vars = Vars::empty();
        let shell = chars_of("SHELL");
        let mut i: usize = 0;
        while i < env.len()
            invariant
                i <= env.len(),
                shell@ == "SHELL"@,
                vars@ == inherit_all(env_view(env@), i as nat),
                names_valid(vars@),
            decreases env.len() - i,
        {
            let pair = &env[i];
            assert(env_view(env@)[i as int] == (pair.0@, pair.1@));
            let chars = chars_of(pair.0.as_str());
            let (a, b) = trim_bounds(&chars);
            let key = crate::text::slice_of(&chars, a, b);
            if !crate::text::same_text(&key, &shell) {
                let _ = vars.set(pair.0.as_str(), pair.1.as_str(), false);
            }
            i += 1;
        }
        vars
    }

    /// The variable that `k` stands for. Whitespace around `k` does not count.
    pub fn get(&self, k: &str) -> (out: &Var)
        ensures
            out@ == lookup(self@, k@),
    {
        proof {
            use_type_invariant(self);
        }
        let chars = chars_of(k);
        let (a, b) = trim_bounds(&chars);
        let key = string_of_range(&chars, a, b);
        let stored = self.map.get(key.as_str());
        let preset = self.defaults.get(key.as_str());
        match stored {
            Some(var) => {
                if var.value.as_str().is_empty() {
                    match preset {
                        Some(def) => def,
                        None => var,
                    }
                } else {
                    var
                }
            },
            None => match preset {
                Some(def) => def,
                None => &self.blank,
            },
        }
    }

    /// Assigns `v` to the name `k`, whitespace around `k` taken off, as a
    /// deferred variable where `recursive` is set. A name that holds
    /// whitespace or one of `:`, `#`, `=` is rejected and nothing changes.
    pub fn set(&mut self, k: &str, v: &str, recursive: bool) -> (r: Result<(), String>)
        ensures
            valid_name(trim(k@)) ==> r is Ok && final(self)@ == old(self)@.insert(
                trim(k@),
                VarView { value: v@, recursive },
            ),
            !valid_name(trim(k@)) ==> r is Err && final(self)@ == old(self)@ && r->Err_0@
                == name_error(trim(k@)[first_bad(trim(k@), 0)]),
            names_valid(final(self)@),
    {
        proof {
            use_type_invariant(&*self);
        }
        let chars = chars_of(k);
        let (a, b) = trim_bounds(&chars);
        let ghost name = trim(k@);
        proof {
            lemma_first_bad_bounds(name, 0);
        }
        let mut i: usize = a;
        while i < b
            invariant
                a <= i <= b <= chars.len(),
                name == chars@.subrange(a as int, b as int),
                name == trim(k@),
                first_bad(name, 0) == first_bad(name, i - a),
                first_bad(name, 0) <= name.len(),
                valid_name(name) <==> first_bad(name, 0) == name.len(),
                *self == *old(self),
                names_valid(self@),
            decreases b - i,
        {
            let ch = chars[i];
            assert(name[i - a] == ch);
            if is_space_char(ch) {
                return Err(String::from_str("Variable contains whitespace."));
            }
            if ch == ':' || ch == '#' || ch == '=' {
                let mut msg = String::from_str("Variable contains bad character '");
                msg.push(ch);
                msg.append("'.");
                return Err(msg);
            }
            i += 1;
        }
        let key = string_of_range(&chars, a, b);
        let var = Var { value: String::from_str(v), recursive };
        proof {
            assert(first_bad(name, 0) == name.len());
            crate::text::lemma_trim_idempotent(k@);
            assert(views_of(self.map@.insert(key@, var)) =~= views_of(self.map@).insert(
                key@,
                var@,
            ));
        }
        let mut map = StringHashMap::new();
        std::mem::swap(&mut map, &mut self.map);
        map.insert(key, var);
        self.map = map;
        Ok(())
    }
}

/// After a name that can be assigned to was set, fetching it gives the value
/// and the flag that were set; unless the name is reserved and the value is
/// empty, in which case fetching gives the name's default.
pub proof fn lemma_get_after_set(
    stored: Map<Seq<char>, VarView>,
    name: Seq<char>,
    value: Seq<char>,
    recursive: bool,
)
    requires
        valid_name(trim(name)),
    ensures
        value.len() > 0 || !defaults().contains_key(trim(name)) ==> lookup(
            stored.insert(trim(name), VarView { value, recursive }),
            name,
        ) == (VarView { value, recursive }),
        value.len() == 0 && defaults().contains_key(trim(name)) ==> lookup(
            stored.insert(trim(name), VarView { value, recursive }),
            name,
        ) == defaults()[trim(name)],
{
}

/// Setting one name leaves what every other name stands for unchanged.
pub proof fn lemma_get_other_after_set(
    stored: Map<Seq<char>, VarView>,
    name: Seq<char>,
    value: Seq<char>,
    recursive: bool,
    other: Seq<char>,
)
    requires
        trim(other) != trim(name),
    ensures
        lookup(stored.insert(trim(name), VarView { value, recursive }), other) == lookup(
            stored,
            other,
        ),
{
}

/// After a sequence of immediate assignments, all to names that can be
/// assigned to, a name stands for the value of the last assignment to it;
/// unless the name is reserved and that value is empty.
pub proof fn lemma_last_assignment_wins(
    start: Map<Seq<char>, VarView>,
    ops: Seq<(Seq<char>, Seq<char>)>,
    last: int,
    name: Seq<char>,
)
    requires
        forall|i: int| 0 <= i < ops.len() ==> valid_name(trim(#[trigger] ops[i].0)),
        0 <= last < ops.len(),
        trim(ops[last].0) == trim(name),
        forall|i: int| last < i < ops.len() ==> trim(#[trigger] ops[i].0) != trim(name),
        ops[last].1.len() > 0 || !defaults().contains_key(trim(name)),
    ensures
        lookup(assign_all(start, ops, ops.len()), name) == (VarView {
            value: ops[last].1,
            recursive: false,
        }),
{
    lemma_assign_prefix(start, ops, last, name, ops.len());
}

proof fn lemma_assign_prefix(
    start: Map<Seq<char>, VarView>,
    ops: Seq<(Seq<char>, Seq<char>)>,
    last: int,
    name: Seq<char>,
    n: nat,
)
    requires
        forall|i: int| 0 <= i < ops.len() ==> valid_name(trim(#[trigger] ops[i].0)),
        0 <= last < n <= ops.len(),
        trim(ops[last].0) == trim(name),
        forall|i: int| last < i < ops.len() ==> trim(#[trigger] ops[i].0) != trim(name),
    ensures
        assign_all(start, ops, n).contains_key(trim(name)),
        assign_all(start, ops, n)[trim(name)] == (VarView { value: ops[last].1, recursive: false }),
    decreases n,
{
    if n - 1 > last {
        lemma_assign_prefix(start, ops, last, name, (n - 1) as nat);
        assert(trim(ops[n - 1].0) != trim(name));
    }
}

} // verus!
