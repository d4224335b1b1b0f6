//! Persistent settings and saved accounts. Account names compare without
//! regard to ASCII case.

use vstd::prelude::*;

use crate::crypto::{hex_decode, hex_decode_spec, hex_encode, hex_text};
use crate::machineid::{build_machine_id, machine_id_blob, random_bytes};
use vstd::utf8::encode_utf8;
use vstd::string::StringSliceAdditionalSpecFns;

use crate::text::{
    char_eq_ignore_case, eq_ignore_case, str_chars, string_eq_ignore_case, string_from_chars,
};

verus! {

#[derive(Debug, Clone)]
pub struct SavedAccount {
    pub account_name: String,
    pub steamid: u64,
    pub refresh_token: String,
    pub guard_data: Option<String>,
}

/// What a [`SavedAccount`] holds.
pub struct AccountView {
    pub account_name: Seq<char>,
    pub steamid: u64,
    pub refresh_token: Seq<char>,
    pub guard_data: Option<Seq<char>>,
}

impl View for SavedAccount {
    type V = AccountView;

    open spec fn view(&self) -> AccountView {
        AccountView {
            account_name: self.account_name@,
            steamid: self.steamid,
            refresh_token: self.refresh_token@,
            guard_data: match self.guard_data {
                Some(g) => Some(g@),
                None => None,
            },
        }
    }
}

#[derive(Debug, Clone)]
pub struct Settings {
    /// Default install directory for new downloads.
    pub install_dir: String,
    /// Parallel CDN connections per task.
    pub max_connections: usize,
    /// Depot language filter (empty = only language-neutral depots).
    pub language: String,
    /// Include all language depots.
    pub all_languages: bool,
    /// Preferred OS for auto depot selection.
    pub os: String,
    /// Preferred architecture ("64" / "32" / "").
    pub arch: String,
    /// Steam region cell id (0 = auto).
    pub cell_id: u32,
    /// Saved accounts (refresh tokens).
    pub accounts: Vec<SavedAccount>,
    /// Last used account name.
    pub last_account: Option<String>,
    /// Machine-id seed (random hex), persisted for stable machine identity.
    pub machine_id_seed: String,
    /// Cached CM websocket endpoints.
    pub cm_endpoints: Vec<String>,
    /// Remembered UI filters.
    pub file_filters: String,
}

/// The OS preferred by default on a target: `windows`, `macos`, or
/// `linux` for every other target.
pub open spec fn default_os_text(target_os: Seq<char>) -> Seq<char> {
    if target_os == "windows"@ {
        "windows"@
    } else if target_os == "macos"@ {
        "macos"@
    } else {
        "linux"@
    }
}

/// The default OS for the target the program was built for (as
/// `std::env::consts::OS` names it).
pub fn default_os(target_os: &str) -> (r: String)
    ensures
        r@ == default_os_text(target_os@),
{
    let t = str_chars(target_os);
    let w = str_chars("windows");
    let m = str_chars("macos");
    if crate::text::chars_eq(t.as_slice(), w.as_slice()) {
        string_from_chars(w.as_slice())
    } else if crate::text::chars_eq(t.as_slice(), m.as_slice()) {
        string_from_chars(m.as_slice())
    } else {
        string_from_chars(str_chars("linux").as_slice())
    }
}

pub fn default_language() -> (r: String)
    ensures
        r@ == "english"@,
{
    string_from_chars(str_chars("english").as_slice())
}

pub open spec fn accounts_view(v: Seq<SavedAccount>) -> Seq<AccountView> {
    v.map_values(|a: SavedAccount| a@)
}

/// Index of the first account named `name` (any ASCII case) at or after `i`.
pub open spec fn account_index_from(accts: Seq<AccountView>, name: Seq<char>, i: int) -> Option<int>
    decreases accts.len() - i,
{
    if i < 0 || i >= accts.len() {
        None
    } else if eq_ignore_case(accts[i].account_name, name) {
        Some(i)
    } else {
        account_index_from(accts, name, i + 1)
    }
}

pub open spec fn account_index(accts: Seq<AccountView>, name: Seq<char>) -> Option<int> {
    account_index_from(accts, name, 0)
}

/// The first account named `name` (any ASCII case).
pub open spec fn account_named(accts: Seq<AccountView>, name: Seq<char>) -> Option<AccountView> {
    match account_index(accts, name) {
        Some(i) => Some(accts[i]),
        None => None,
    }
}

/// The accounts with `a` in place of the first account of its name, or
/// appended when there is none.
pub open spec fn upserted(accts: Seq<AccountView>, a: AccountView) -> Seq<AccountView> {
    match account_index(accts, a.account_name) {
        Some(i) => accts.update(i, a),
        None => accts.push(a),
    }
}

/// The accounts not named `name` (any ASCII case), in order.
pub open spec fn without_account(accts: Seq<AccountView>, name: Seq<char>) -> Seq<AccountView>
    decreases accts.len(),
{
    if accts.len() == 0 {
        seq![]
    } else {
        let rest = without_account(accts.drop_last(), name);
        if eq_ignore_case(accts.last().account_name, name) {
            rest
        } else {
            rest.push(accts.last())
        }
    }
}

/// The fields that account edits leave alone.
pub open spec fn same_config(a: Settings, b: Settings) -> bool {
    &&& a.install_dir == b.install_dir
    &&& a.max_connections == b.max_connections
    &&& a.language == b.language
    &&& a.all_languages == b.all_languages
    &&& a.os == b.os
    &&& a.arch == b.arch
    &&& a.cell_id == b.cell_id
    &&& a.machine_id_seed == b.machine_id_seed
    &&& a.cm_endpoints == b.cm_endpoints
    &&& a.file_filters == b.file_filters
}

proof fn lemma_index_from_bounds(accts: Seq<AccountView>, name: Seq<char>, i: int)
    requires
        0 <= i <= accts.len(),
    ensures
        account_index_from(accts, name, i) matches Some(k) ==> i <= k < accts.len()
            && eq_ignore_case(accts[k].account_name, name) && forall|j: int|
            i <= j < k ==> !eq_ignore_case(#[trigger] accts[j].account_name, name),
        account_index_from(accts, name, i) is None ==> forall|j: int|
            i <= j < accts.len() ==> !eq_ignore_case(#[trigger] accts[j].account_name, name),
    decreases accts.len() - i,
{
    if 0 <= i < accts.len() && !eq_ignore_case(accts[i].account_name, name) {
        lemma_index_from_bounds(accts, name, i + 1);
    }
}

/// The first-match index is the first position whose name matches.
pub proof fn lemma_account_index(accts: Seq<AccountView>, name: Seq<char>)
    ensures
        account_index(accts, name) matches Some(k) ==> 0 <= k < accts.len() && eq_ignore_case(
            accts[k].account_name,
            name,
        ) && forall|j: int| 0 <= j < k ==> !eq_ignore_case(#[trigger] accts[j].account_name, name),
        account_index(accts, name) is None ==> forall|j: int|
            0 <= j < accts.len() ==> !eq_ignore_case(#[trigger] accts[j].account_name, name),
{
    lemma_index_from_bounds(accts, name, 0);
}

proof fn lemma_index_unique(accts: Seq<AccountView>, name: Seq<char>, k: int)
    requires
        0 <= k < accts.len(),
        eq_ignore_case(accts[k].account_name, name),
        forall|j: int| 0 <= j < k ==> !eq_ignore_case(#[trigger] accts[j].account_name, name),
    ensures
        account_index(accts, name) == Some(k),
{
    lemma_account_index(accts, name);
    if let Some(m) = account_index(accts, name) {
        if m < k {
            assert(!eq_ignore_case(accts[m].account_name, name));
        }
    } else {
        assert(!eq_ignore_case(accts[k].account_name, name));
    }
}

/// Case-insensitive name equality is symmetric and transitive.
pub proof fn lemma_eq_ignore_case_equivalence(a: Seq<char>, b: Seq<char>, c: Seq<char>)
    ensures
        eq_ignore_case(a, b) ==> eq_ignore_case(b, a),
        eq_ignore_case(a, b) && eq_ignore_case(b, c) ==> eq_ignore_case(a, c),
        eq_ignore_case(a, a),
{
    if eq_ignore_case(a, b) {
        assert forall|i: int| 0 <= i < b.len() implies char_eq_ignore_case(b[i], a[i]) by {
            assert(char_eq_ignore_case(a[i], b[i]));
        }
        if eq_ignore_case(b, c) {
            assert forall|i: int| 0 <= i < a.len() implies char_eq_ignore_case(a[i], c[i]) by {
                assert(char_eq_ignore_case(a[i], b[i]));
                assert(char_eq_ignore_case(b[i], c[i]));
            }
        }
    }
}

/// The ASCII bytes of `depotmanager`, the seed used when the stored one is
/// not valid hex.
pub open spec fn fallback_seed() -> Seq<u8> {
    seq![0x64u8, 0x65, 0x70, 0x6f, 0x74, 0x6d, 0x61, 0x6e, 0x61, 0x67, 0x65, 0x72]
}

impl Settings {
    /// The settings a fresh installation starts with, for the given
    /// default OS.
    pub fn defaults(os: String) -> (r: Settings)
        ensures
            r.install_dir@ == Seq::<char>::empty(),
            r.max_connections == 16,
            r.language@ == "english"@,
            !r.all_languages,
            r.os@ == os@,
            r.arch@ == "64"@,
            r.cell_id == 0,
            r.accounts@.len() == 0,
            r.last_account is None,
            r.machine_id_seed@ == Seq::<char>::empty(),
            r.cm_endpoints@.len() == 0,
            r.file_filters@ == Seq::<char>::empty(),
    {
        Settings {
            install_dir: String::new(),
            max_connections: 16,
            language: default_language(),
            all_languages: false,
            os,
            arch: string_from_chars(str_chars("64").as_slice()),
            cell_id: 0,
            accounts: Vec::new(),
            last_account: None,
            machine_id_seed: String::new(),
            cm_endpoints: Vec::new(),
            file_filters: String::new(),
        }
    }

    /// Gives the settings a random machine-id seed (16 random bytes in
    /// hex) when they have none.
    pub fn ensure_machine_seed(&mut self)
        ensures
            old(self).machine_id_seed@.len() > 0 ==> final(self).machine_id_seed
                == old(self).machine_id_seed,
            old(self).machine_id_seed@.len() == 0 ==> exists|b: Seq<u8>|
                b.len() == 16 && final(self).machine_id_seed@ == hex_text(b, false),
            final(self).accounts@ == old(self).accounts@,
            final(self).last_account == old(self).last_account,
            final(self).install_dir == old(self).install_dir,
            final(self).max_connections == old(self).max_connections,
            final(self).language == old(self).language,
            final(self).all_languages == old(self).all_languages,
            final(self).os == old(self).os,
            final(self).arch == old(self).arch,
            final(self).cell_id == old(self).cell_id,
            final(self).cm_endpoints == old(self).cm_endpoints,
            final(self).file_filters == old(self).file_filters,
    {
        if !crate::text::text_is_empty(self.machine_id_seed.as_str()) {
            return;
        }
        let b = random_bytes(16);
        self.machine_id_seed = hex_encode(b.as_slice());
    }

    /// The machine-id blob for these settings: built from the seed's hex
    /// bytes, or from `depotmanager` when the seed is not valid hex.
    pub fn machine_id(&self) -> (r: Vec<u8>)
        ensures
            r@ == machine_id_blob(
                match hex_decode_spec(encode_utf8(self.machine_id_seed@)) {
                    Some(b) => b,
                    None => fallback_seed(),
                },
            ),
    {
        let bytes = self.machine_id_seed.as_str().as_bytes();
        let seed = match hex_decode(bytes) {
            Some(b) => b,
            None => {
                let v: Vec<u8> = vec![
                    0x64u8,
                    0x65,
                    0x70,
                    0x6f,
                    0x74,
                    0x6d,
                    0x61,
                    0x6e,
                    0x61,
                    0x67,
                    0x65,
                    0x72,
                ];
                assert(v@ =~= fallback_seed());
                v
            },
        };
        build_machine_id(seed.as_slice())
    }

    pub fn find_account(&self, name: &str) -> (r: Option<&SavedAccount>)
        ensures
            match account_named(accounts_view(self.accounts@), name@) {
                Some(a) => r matches Some(acc) && acc@ == a,
                None => r is None,
            },
    {
        let ghost accts = accounts_view(self.accounts@);
        let mut i: usize = 0;
        while i < self.accounts.len()
            invariant
                i <= self.accounts@.len(),
                accts == accounts_view(self.accounts@),
                account_index(accts, name@) == account_index_from(accts, name@, i as int),
            decreases self.accounts@.len() - i,
        {
            if string_eq_ignore_case(&self.accounts[i].account_name, name) {
                return Some(&self.accounts[i]);
            }
            i = i + 1;
        }
        None
    }

    fn account_position(&self, name: &str) -> (r: Option<usize>)
        ensures
            match r {
                Some(k) => account_index(accounts_view(self.accounts@), name@) == Some(k as int)
                    && k < self.accounts@.len(),
                None => account_index(accounts_view(self.accounts@), name@) is None,
            },
    {
        proof {
            lemma_account_index(accounts_view(self.accounts@), name@);
        }
        let ghost accts = accounts_view(self.accounts@);
        let mut i: usize = 0;
        while i < self.accounts.len()
            invariant
                i <= self.accounts@.len(),
                accts == accounts_view(self.accounts@),
                account_index(accts, name@) == account_index_from(accts, name@, i as int),
            decreases self.accounts@.len() - i,
        {
            if string_eq_ignore_case(&self.accounts[i].account_name, name) {
                return Some(i);
            }
            i = i + 1;
        }
        None
    }

    /// Replaces the saved account of the same name (any ASCII case), or
    /// adds it.
    pub fn upsert_account(&mut self, account: SavedAccount)
        ensures
            accounts_view(final(self).accounts@) == upserted(
                accounts_view(old(self).accounts@),
                account@,
            ),
            final(self).last_account == old(self).last_account,
            same_config(*final(self), *old(self)),
    {
        let ghost a = account@;
        let ghost before = self.accounts@;
        assert(before == old(self).accounts@);
        let nm = account.account_name.as_str();
        assert(nm@ == a.account_name);
        let pos = self.account_position(nm);
        match pos {
            Some(i) => {
                self.accounts.set(i, account);
                proof {
                    assert(accounts_view(self.accounts@) =~= accounts_view(before).update(i as int, a));
                    assert(account_index(accounts_view(before), a.account_name) == Some(i as int));
                    assert(upserted(accounts_view(before), a) == accounts_view(before).update(i as int, a));
                }
            },
            None => {
                self.accounts.push(account);
                proof {
                    assert(accounts_view(self.accounts@) =~= accounts_view(before).push(a));
                }
            },
        }
    }

    /// Forgets every saved account named `name` (any ASCII case), and the
    /// last-used account when it has that name.
    pub fn remove_account(&mut self, name: &str)
        ensures
            accounts_view(final(self).accounts@) == without_account(
                accounts_view(old(self).accounts@),
                name@,
            ),
            final(self).last_account == (match old(self).last_account {
                Some(n) => if eq_ignore_case(n@, name@) {
                    None
                } else {
                    Some(n)
                },
                None => None,
            }),
            same_config(*final(self), *old(self)),
    {
        let mut accounts: Vec<SavedAccount> = Vec::new();
        std::mem::swap(&mut accounts, &mut self.accounts);
        let ghost orig = accounts@;
        let mut kept_rev: Vec<SavedAccount> = Vec::new();
        let mut rest = accounts;
        let mut out: Vec<SavedAccount> = Vec::new();
        assert(rest@.subrange(0, rest@.len() as int) =~= rest@);
        assert(accounts_view(kept_rev@).reverse() =~= seq![]);
        assert(without_account(accounts_view(orig), name@) =~= without_account(accounts_view(orig), name@) + seq![]);
        while rest.len() > 0
            invariant
                rest@ == orig.subrange(0, rest@.len() as int),
                rest@.len() <= orig.len(),
                without_account(accounts_view(orig), name@) == without_account(
                    accounts_view(rest@),
                    name@,
                ) + accounts_view(kept_rev@).reverse(),
            decreases rest@.len(),
        {
            let ghost before_rest = rest@;
            let ghost before_kept = kept_rev@;
            match rest.pop() {
                Some(a) => {
                    proof {
                        assert(accounts_view(before_rest).drop_last() =~= accounts_view(rest@));
                        assert(accounts_view(before_rest).last() == a@);
                    }
                    if !string_eq_ignore_case(&a.account_name, name) {
                        kept_rev.push(a);
                        proof {
                            assert(accounts_view(kept_rev@).reverse() =~= seq![a@]
                                + accounts_view(before_kept).reverse());
                        }
                    }
                },
                None => {},
            }
        }
        while kept_rev.len() > 0
            invariant
                without_account(accounts_view(orig), name@) == accounts_view(out@)
                    + accounts_view(kept_rev@).reverse(),
            decreases kept_rev@.len(),
        {
            let ghost before_kept = kept_rev@;
            let ghost before_out = out@;
            match kept_rev.pop() {
                Some(a) => {
                    out.push(a);
                    proof {
                        assert(accounts_view(before_kept).reverse() =~= seq![a@] + accounts_view(
                            kept_rev@,
                        ).reverse());
                        assert(accounts_view(out@) =~= accounts_view(before_out).push(a@));
                    }
                },
                None => {},
            }
        }
        proof {
            assert(accounts_view(out@) =~= without_account(accounts_view(orig), name@));
        }
        self.accounts = out;
        let clear = match &self.last_account {
            Some(n) => string_eq_ignore_case(n, name),
            None => false,
        };
        if clear {
            self.last_account = None;
        }
    }
}

// ------------------------------------------------------------------
// Laws of the account list
// ------------------------------------------------------------------

/// Looking up an account right after saving it gives back that account.
pub proof fn lemma_find_after_upsert(accts: Seq<AccountView>, a: AccountView)
    ensures
        account_named(upserted(accts, a), a.account_name) == Some(a),
{
    lemma_account_index(accts, a.account_name);
    lemma_eq_ignore_case_equivalence(a.account_name, a.account_name, a.account_name);
    let u = upserted(accts, a);
    match account_index(accts, a.account_name) {
        Some(k) => {
            assert forall|j: int| 0 <= j < k implies !eq_ignore_case(
                #[trigger] u[j].account_name,
                a.account_name,
            ) by {
                assert(u[j] == accts[j]);
            }
            lemma_index_unique(u, a.account_name, k);
        },
        None => {
            assert forall|j: int| 0 <= j < accts.len() implies !eq_ignore_case(
                #[trigger] u[j].account_name,
                a.account_name,
            ) by {
                assert(u[j] == accts[j]);
            }
            lemma_index_unique(u, a.account_name, accts.len() as int);
        },
    }
}

/// Saving an account leaves the lookup of every other name unchanged.
pub proof fn lemma_upsert_keeps_others(accts: Seq<AccountView>, a: AccountView, name: Seq<char>)
    requires
        !eq_ignore_case(name, a.account_name),
    ensures
        account_named(upserted(accts, a), name) == account_named(accts, name),
{
    let u = upserted(accts, a);
    lemma_account_index(accts, a.account_name);
    lemma_account_index(accts, name);
    lemma_account_index(u, name);
    lemma_eq_ignore_case_equivalence(a.account_name, name, name);
    lemma_eq_ignore_case_equivalence(name, a.account_name, name);
    match account_index(accts, a.account_name) {
        Some(k) => {
            assert(!eq_ignore_case(u[k].account_name, name));
            assert(!eq_ignore_case(accts[k].account_name, name)) by {
                lemma_eq_ignore_case_equivalence(accts[k].account_name, a.account_name, name);
                lemma_eq_ignore_case_equivalence(name, accts[k].account_name, a.account_name);
                lemma_eq_ignore_case_equivalence(accts[k].account_name, name, name);
            }
            match account_index(accts, name) {
                Some(m) => {
                    assert forall|j: int| 0 <= j < m implies !eq_ignore_case(
                        #[trigger] u[j].account_name,
                        name,
                    ) by {
                        if j != k {
                            assert(u[j] == accts[j]);
                        }
                    }
                    assert(m != k);
                    assert(u[m] == accts[m]);
                    lemma_index_unique(u, name, m);
                },
                None => {
                    assert forall|j: int| 0 <= j < u.len() implies !eq_ignore_case(
                        #[trigger] u[j].account_name,
                        name,
                    ) by {
                        if j != k {
                            assert(u[j] == accts[j]);
                        }
                    }
                },
            }
        },
        None => {
            assert(u.last().account_name == a.account_name);
            match account_index(accts, name) {
                Some(m) => {
                    assert forall|j: int| 0 <= j < m implies !eq_ignore_case(
                        #[trigger] u[j].account_name,
                        name,
                    ) by {
                        assert(u[j] == accts[j]);
                    }
                    assert(u[m] == accts[m]);
                    lemma_index_unique(u, name, m);
                },
                None => {
                    assert forall|j: int| 0 <= j < u.len() implies !eq_ignore_case(
                        #[trigger] u[j].account_name,
                        name,
                    ) by {
                        if j < accts.len() {
                            assert(u[j] == accts[j]);
                        } else {
                            lemma_eq_ignore_case_equivalence(a.account_name, name, name);
                        }
                    }
                },
            }
        },
    }
}

/// Saving an account whose name is already saved keeps the count of
/// accounts; a new name adds one.
pub proof fn lemma_upsert_len(accts: Seq<AccountView>, a: AccountView)
    ensures
        upserted(accts, a).len() == accts.len() + (if account_index(accts, a.account_name) is Some {
            0int
        } else {
            1int
        }),
{
    lemma_account_index(accts, a.account_name);
}

proof fn lemma_without_has_none(accts: Seq<AccountView>, name: Seq<char>)
    ensures
        forall|j: int|
            0 <= j < without_account(accts, name).len() ==> !eq_ignore_case(
                #[trigger] without_account(accts, name)[j].account_name,
                name,
            ),
    decreases accts.len(),
{
    if accts.len() > 0 {
        lemma_without_has_none(accts.drop_last(), name);
    }
}

/// After forgetting a name, no account of that name is found.
pub proof fn lemma_find_after_remove(accts: Seq<AccountView>, name: Seq<char>)
    ensures
        account_named(without_account(accts, name), name) is None,
{
    lemma_without_has_none(accts, name);
    lemma_account_index(without_account(accts, name), name);
}

} // verus!
