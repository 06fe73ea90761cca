//! Debian packages.
//!
//! A package is an `ar` container that holds `debian-binary`, `control.tar` and
//! `data.tar`, in this order. The container and the nested archives are read
//! from outside: a [`DebState`] is told what they hold.

use vstd::prelude::*;
use vstd::string::*;
use crate::builtin::{BuiltinCodecProviders, BuiltinFormatProviders};
use crate::bytes::{contains_byte, has_prefix, same_bytes, starts_with, to_vec};
use crate::chain::ProviderSet;
use crate::entry::ArchivePath;
use crate::filtered::detect::FilterId;
use crate::limits::Limits;
use crate::package::finding::{
    blocks, findings_view, found, has_blocking, holds_code, FindingView, PackageFinding,
    PackageFindingCode, Severity, SupportStatus,
};
use crate::package::zip_profile::{report_if, said_if};
use crate::path::{safe_archive_path, sanitize_archive_path, PathRules};
use crate::text::join;

verus! {

/// How much of `debian-binary` is kept.
pub const VERSION_CAP: usize = 64;

/// The least budget for the bytes of the container.
pub const CONTAINER_FLOOR: u64 = 4_294_967_296;

/// What a member is.
#[derive(Clone, Copy, Debug, PartialEq, Eq, Structural)]
pub enum Role {
    DebianBinary,
    Control,
    Data,
    Unknown,
}

impl Role {
    /// The place of a member in the order of members.
    pub open spec fn place(self) -> int {
        match self {
            Role::DebianBinary => 0,
            Role::Control => 1,
            Role::Data => 2,
            Role::Unknown => i32::MAX as int,
        }
    }

    /// The place of a member in the order of members.
    pub fn rank(self) -> (rank: i32)
        ensures
            rank == self.place(),
    {
        match self {
            Role::DebianBinary => 0,
            Role::Control => 1,
            Role::Data => 2,
            Role::Unknown => i32::MAX,
        }
    }

    /// What a member with a name is.
    pub fn classify(name: &[u8]) -> (role: Self)
        ensures
            role == role_of(name@),
    {
        if same_bytes(name, "debian-binary".as_bytes()) {
            Role::DebianBinary
        } else if same_bytes(name, "control.tar".as_bytes()) || starts_with(
            name,
            "control.tar.".as_bytes(),
        ) {
            Role::Control
        } else if same_bytes(name, "data.tar".as_bytes()) || starts_with(
            name,
            "data.tar.".as_bytes(),
        ) {
            Role::Data
        } else {
            Role::Unknown
        }
    }
}

/// What a member with a name is.
pub open spec fn role_of(name: Seq<u8>) -> Role {
    if name == "debian-binary".spec_bytes() {
        Role::DebianBinary
    } else if name == "control.tar".spec_bytes() || has_prefix(name, "control.tar.".spec_bytes()) {
        Role::Control
    } else if name == "data.tar".spec_bytes() || has_prefix(name, "data.tar.".spec_bytes()) {
        Role::Data
    } else {
        Role::Unknown
    }
}

/// The budgets for a container: at least the floor for its bytes.
pub open spec fn outer_limits(limits: Limits) -> Limits {
    Limits {
        decoded_total: match limits.decoded_total {
            Some(total) => Some(
                if total < CONTAINER_FLOOR {
                    CONTAINER_FLOOR
                } else {
                    total
                },
            ),
            None => Some(CONTAINER_FLOOR),
        },
        ..limits
    }
}

// ---------------------------------------------------------------------------
// Validator
// ---------------------------------------------------------------------------

/// What Debian packages are validated with: budgets, and the codecs that decode them.
#[derive(Clone, Copy, Debug)]
pub struct DebValidator<C> {
    pub limits: Limits,
    pub providers: ProviderSet<BuiltinFormatProviders, C>,
}

impl DebValidator<BuiltinCodecProviders> {
    /// A validator with the codecs of the library.
    pub fn new(limits: Limits) -> (validator: Self)
        ensures
            validator.limits == limits,
            validator.providers.formats == BuiltinFormatProviders,
            validator.providers.codecs == BuiltinCodecProviders,
    {
        DebValidator { limits, providers: ProviderSet::builtins() }
    }
}

impl<C> DebValidator<C> {
    /// This validator with other budgets.
    pub fn with_limits(self, limits: Limits) -> (validator: Self)
        ensures
            validator.limits == limits,
            validator.providers == self.providers,
    {
        DebValidator { limits, providers: self.providers }
    }

    /// This validator with other codecs.
    pub fn with_codec_providers<D>(
        self,
        providers: ProviderSet<BuiltinFormatProviders, D>,
    ) -> (validator: DebValidator<D>)
        ensures
            validator.limits == self.limits,
            validator.providers == providers,
    {
        DebValidator { limits: self.limits, providers }
    }

    /// The budgets.
    pub fn limits(&self) -> (limits: Limits)
        ensures
            limits == self.limits,
    {
        self.limits
    }

    /// The budgets for the container: its bytes are not decoded, so that a small
    /// budget for decoded bytes must not reject them.
    pub fn container_limits(&self) -> (outer: Limits)
        ensures
            outer == outer_limits(self.limits),
    {
        let total: u64 = match self.limits.decoded_total {
            Some(total) => if total < CONTAINER_FLOOR {
                CONTAINER_FLOOR
            } else {
                total
            },
            None => CONTAINER_FLOOR,
        };
        self.limits.with_decoded_total(Some(total))
    }
}

/// What has been seen of a package.
#[derive(Debug)]
pub struct DebState {
    /// Which names the host takes for paths.
    pub rules: PathRules,
    pub findings: Vec<PackageFinding>,
    pub container_readable: bool,
    /// No member has been seen.
    pub at_start: bool,
    pub seen_debian: bool,
    pub seen_control: bool,
    pub seen_data: bool,
    pub debian_version_ok: bool,
    /// That `debian-binary` is missing has been reported.
    pub debian_reported: bool,
    pub last_rank: i32,
    pub data_compression: Option<FilterId>,
    pub control_compression: Option<FilterId>,
}

/// The mathematical content of a [`DebState`].
#[verifier::ext_equal]
pub struct DebView {
    pub rules: PathRules,
    pub findings: Seq<FindingView>,
    pub container_readable: bool,
    pub at_start: bool,
    pub seen_debian: bool,
    pub seen_control: bool,
    pub seen_data: bool,
    pub debian_version_ok: bool,
    pub debian_reported: bool,
    pub last_rank: int,
    pub data_compression: Option<FilterId>,
    pub control_compression: Option<FilterId>,
}

impl View for DebState {
    type V = DebView;

    open spec fn view(&self) -> DebView {
        DebView {
            rules: self.rules,
            findings: findings_view(self.findings@),
            container_readable: self.container_readable,
            at_start: self.at_start,
            seen_debian: self.seen_debian,
            seen_control: self.seen_control,
            seen_data: self.seen_data,
            debian_version_ok: self.debian_version_ok,
            debian_reported: self.debian_reported,
            last_rank: self.last_rank as int,
            data_compression: self.data_compression,
            control_compression: self.control_compression,
        }
    }
}

/// What is to be done with a member.
#[derive(Clone, Copy, Debug, PartialEq, Eq, Structural)]
pub enum MemberPlan {
    /// Nothing.
    Skip,
    /// Its version is to be read.
    Version,
    /// It is to be read as a nested archive.
    Nested(Role),
}

/// A finding about a Debian package.
pub open spec fn deb_found(
    path: Option<Seq<u8>>,
    code: PackageFindingCode,
    detail: Seq<char>,
) -> FindingView {
    found("debian"@, path, code, detail)
}

impl DebView {
    /// A member of a role has been seen.
    pub open spec fn has_seen(self, role: Role) -> bool {
        match role {
            Role::DebianBinary => self.seen_debian,
            Role::Control => self.seen_control,
            Role::Data => self.seen_data,
            Role::Unknown => false,
        }
    }

    /// What is reported about a member of the profile.
    pub open spec fn role_findings(self, role: Role, name: Seq<u8>) -> Seq<FindingView> {
        if role == Role::Unknown {
            seq![
                deb_found(
                    Some(name),
                    PackageFindingCode::UnknownMember,
                    "member is outside the Debian profile"@,
                ),
            ]
        } else {
            said_if(
                self.has_seen(role),
                deb_found(
                    Some(name),
                    PackageFindingCode::DuplicateMember,
                    "profile member appears more than once"@,
                ),
            ) + said_if(
                role.place() < self.last_rank,
                deb_found(
                    Some(name),
                    PackageFindingCode::UnexpectedMemberOrder,
                    "member appears out of debian-binary, control, data order"@,
                ),
            )
        }
    }

    /// The state and the plan after a member has begun.
    pub open spec fn begun(self, path: ArchivePath) -> (DebView, MemberPlan) {
        let name = path.bytes@;
        let role = role_of(name);
        let misplaced = self.at_start && role != Role::DebianBinary;
        if safe_archive_path(path, self.rules) is None {
            (
                DebView {
                    at_start: false,
                    findings: self.findings + seq![
                        deb_found(
                            Some(name),
                            PackageFindingCode::UnsafeMemberName,
                            "member name is absolute, traversing, or unrepresentable"@,
                        ),
                    ],
                    ..self
                },
                MemberPlan::Skip,
            )
        } else {
            (
                DebView {
                    at_start: false,
                    findings: self.findings + said_if(
                        misplaced,
                        deb_found(
                            Some(name),
                            PackageFindingCode::MissingDebianBinary,
                            "first ar member is not debian-binary"@,
                        ),
                    ) + self.role_findings(role, name),
                    debian_reported: self.debian_reported || misplaced,
                    seen_debian: self.seen_debian || role == Role::DebianBinary,
                    seen_control: self.seen_control || role == Role::Control,
                    seen_data: self.seen_data || role == Role::Data,
                    last_rank: if role != Role::Unknown && role.place() > self.last_rank {
                        role.place()
                    } else {
                        self.last_rank
                    },
                    ..self
                },
                match role {
                    Role::DebianBinary => MemberPlan::Version,
                    Role::Control | Role::Data => MemberPlan::Nested(role),
                    Role::Unknown => MemberPlan::Skip,
                },
            )
        }
    }

    /// What is reported about members that are missing.
    pub open spec fn missing_findings(self) -> Seq<FindingView> {
        if !self.container_readable {
            Seq::empty()
        } else {
            said_if(
                !self.seen_debian && !self.debian_reported,
                deb_found(
                    None,
                    PackageFindingCode::MissingDebianBinary,
                    "package has no debian-binary member"@,
                ),
            ) + said_if(
                !self.seen_control,
                deb_found(
                    None,
                    PackageFindingCode::MissingRequiredMember,
                    "package has no control.tar member"@,
                ),
            ) + said_if(
                !self.seen_data,
                deb_found(
                    None,
                    PackageFindingCode::MissingRequiredMember,
                    "package has no data.tar member"@,
                ),
            )
        }
    }

    /// The package keeps to the profile.
    pub open spec fn is_valid(self) -> bool {
        &&& self.container_readable
        &&& !blocks(self.findings + self.missing_findings())
        &&& self.seen_debian
        &&& self.debian_version_ok
        &&& self.seen_control
        &&& self.seen_data
    }
}

/// The version in `debian-binary` is supported.
pub open spec fn supported_version(body: Seq<u8>) -> bool {
    has_prefix(body, "2.".spec_bytes()) && body.contains(0x0au8)
}

// ---------------------------------------------------------------------------
// The order of members
// ---------------------------------------------------------------------------

/// As long as nothing blocks, the members seen are in the order of the profile,
/// each at most once.
pub open spec fn in_order(state: DebView, roles: Seq<Role>) -> bool {
    let debian = Role::DebianBinary;
    !blocks(state.findings) ==> {
        &&& state.at_start == (roles.len() == 0)
        &&& ({
            ||| roles == Seq::<Role>::empty() && !state.seen_debian && !state.seen_control
                && !state.seen_data && state.last_rank == -1
            ||| roles == seq![debian] && state.seen_debian && !state.seen_control
                && !state.seen_data && state.last_rank == 0
            ||| roles == seq![debian, Role::Control] && state.seen_debian && state.seen_control
                && !state.seen_data && state.last_rank == 1
            ||| roles == seq![debian, Role::Data] && state.seen_debian && !state.seen_control
                && state.seen_data && state.last_rank == 2
            ||| roles == seq![debian, Role::Control, Role::Data] && state.seen_debian
                && state.seen_control && state.seen_data && state.last_rank == 2
        })
    }
}

proof fn lemma_blocks_stays(before: Seq<FindingView>, more: Seq<FindingView>)
    ensures
        blocks(before) ==> blocks(before + more),
        blocks(more) ==> blocks(before + more),
{
    let all = before + more;
    if blocks(before) {
        let i = choose|i: int|
            0 <= i < before.len() && (#[trigger] before[i]).severity != Severity::Info;
        assert(all[i] == before[i]);
    }
    if blocks(more) {
        let i = choose|i: int|
            0 <= i < more.len() && (#[trigger] more[i]).severity != Severity::Info;
        assert(all[before.len() + i] == more[i]);
    }
}

/// What is reported about a member that blocks nothing: it begins the package
/// as `debian-binary`, or stands behind all members before it, for the first
/// time.
proof fn lemma_role_findings(state: DebView, role: Role, name: Seq<u8>)
    ensures
        blocks(state.role_findings(role, name)) == (role == Role::Unknown || state.has_seen(role)
            || role.place() < state.last_rank),
{
    let said = state.role_findings(role, name);
    if role == Role::Unknown || state.has_seen(role) || role.place() < state.last_rank {
        assert(said[0].severity != Severity::Info);
    }
}

/// Members stay in order as they come, as long as nothing blocks.
pub proof fn law_members_stay_in_order(state: DebView, roles: Seq<Role>, path: ArchivePath)
    requires
        in_order(state, roles),
    ensures
        in_order(state.begun(path).0, roles.push(role_of(path.bytes@))),
{
    let next = state.begun(path).0;
    let name = path.bytes@;
    let role = role_of(name);
    let more = roles.push(role);
    if safe_archive_path(path, state.rules) is None {
        let said = seq![
            deb_found(
                Some(name),
                PackageFindingCode::UnsafeMemberName,
                "member name is absolute, traversing, or unrepresentable"@,
            ),
        ];
        assert(said[0].severity != Severity::Info);
        lemma_blocks_stays(state.findings, said);
    } else {
        let misplaced = state.at_start && role != Role::DebianBinary;
        let first = said_if(
            misplaced,
            deb_found(
                Some(name),
                PackageFindingCode::MissingDebianBinary,
                "first ar member is not debian-binary"@,
            ),
        );
        let own = state.role_findings(role, name);
        lemma_blocks_stays(state.findings, first);
        lemma_blocks_stays(state.findings + first, own);
        lemma_role_findings(state, role, name);
        if misplaced {
            assert(first[0].severity != Severity::Info);
        }
        if !blocks(next.findings) {
            assert(!misplaced && role != Role::Unknown && !state.has_seen(role) && role.place()
                >= state.last_rank);
            if roles.len() == 0 {
                assert(more =~= seq![Role::DebianBinary]);
            } else if roles == seq![Role::DebianBinary] {
                assert(more =~= seq![Role::DebianBinary, role]);
            } else if roles == seq![Role::DebianBinary, Role::Control] {
                assert(more =~= seq![Role::DebianBinary, Role::Control, role]);
            }
        }
    }
}

/// Members stay in order whatever else is reported.
pub proof fn law_order_survives_findings(state: DebView, roles: Seq<Role>, more: Seq<FindingView>)
    requires
        in_order(state, roles),
    ensures
        in_order(DebView { findings: state.findings + more, ..state }, roles),
{
    lemma_blocks_stays(state.findings, more);
}

/// A package that keeps to the profile holds `debian-binary`, `control.tar` and
/// `data.tar`, in this order and nothing else.
pub proof fn law_valid_packages_hold_three_members(state: DebView, roles: Seq<Role>)
    requires
        in_order(state, roles),
    ensures
        state.is_valid() ==> roles == seq![Role::DebianBinary, Role::Control, Role::Data],
{
    lemma_blocks_stays(state.findings, state.missing_findings());
}

// ---------------------------------------------------------------------------
// The state
// ---------------------------------------------------------------------------

impl DebState {
    /// Nothing has been seen.
    pub fn new(rules: PathRules) -> (state: Self)
        ensures
            state@ == (DebView {
                rules,
                findings: Seq::empty(),
                container_readable: true,
                at_start: true,
                seen_debian: false,
                seen_control: false,
                seen_data: false,
                debian_version_ok: false,
                debian_reported: false,
                last_rank: -1,
                data_compression: None,
                control_compression: None,
            }),
            in_order(state@, Seq::empty()),
    {
        let state = DebState {
            rules,
            findings: Vec::new(),
            container_readable: true,
            at_start: true,
            seen_debian: false,
            seen_control: false,
            seen_data: false,
            debian_version_ok: false,
            debian_reported: false,
            last_rank: -1,
            data_compression: None,
            control_compression: None,
        };
        proof {
            assert(findings_view(state.findings@) =~= Seq::<FindingView>::empty());
        }
        state
    }

    fn say_if(
        &mut self,
        condition: bool,
        path: Option<&[u8]>,
        code: PackageFindingCode,
        detail: &str,
    )
        ensures
            final(self)@ == (DebView {
                findings: old(self)@.findings + said_if(
                    condition,
                    deb_found(
                        match path {
                            Some(path) => Some(path@),
                            None => None,
                        },
                        code,
                        detail@,
                    ),
                ),
                ..old(self)@
            }),
    {
        let own = match path {
            Some(path) => Some(to_vec(path)),
            None => None,
        };
        report_if(condition, "debian", own, code, detail, &mut self.findings);
    }

    /// Begins a member.
    pub fn begin_member(&mut self, path: &ArchivePath) -> (plan: MemberPlan)
        ensures
            (final(self)@, plan) == old(self)@.begun(*path),
    {
        let name = path.bytes.as_slice();
        let first: bool = self.at_start;
        self.at_start = false;
        let ghost start = self@.findings;
        if sanitize_archive_path(path, self.rules).is_none() {
            self.say_if(
                true,
                Some(name),
                PackageFindingCode::UnsafeMemberName,
                "member name is absolute, traversing, or unrepresentable",
            );
            return MemberPlan::Skip;
        }
        let role = Role::classify(name);
        let misplaced: bool = first && role != Role::DebianBinary;
        self.say_if(
            misplaced,
            Some(name),
            PackageFindingCode::MissingDebianBinary,
            "first ar member is not debian-binary",
        );
        if misplaced {
            self.debian_reported = true;
        }
        let ghost middle = self@.findings;
        if role == Role::Unknown {
            self.say_if(
                true,
                Some(name),
                PackageFindingCode::UnknownMember,
                "member is outside the Debian profile",
            );
            return MemberPlan::Skip;
        }
        let seen: bool = match role {
            Role::DebianBinary => self.seen_debian,
            Role::Control => self.seen_control,
            _ => self.seen_data,
        };
        let rank: i32 = role.rank();
        self.say_if(
            seen,
            Some(name),
            PackageFindingCode::DuplicateMember,
            "profile member appears more than once",
        );
        let ordered: bool = rank >= self.last_rank;
        self.say_if(
            !ordered,
            Some(name),
            PackageFindingCode::UnexpectedMemberOrder,
            "member appears out of debian-binary, control, data order",
        );
        if rank > self.last_rank {
            self.last_rank = rank;
        }
        proof {
            assert(self@.findings =~= middle + old(self)@.role_findings(role, name@));
        }
        match role {
            Role::DebianBinary => {
                self.seen_debian = true;
                MemberPlan::Version
            },
            Role::Control => {
                self.seen_control = true;
                MemberPlan::Nested(role)
            },
            _ => {
                self.seen_data = true;
                MemberPlan::Nested(role)
            },
        }
    }

    /// Ends `debian-binary`, of which the beginning is given.
    pub fn finish_version(&mut self, body: &[u8])
        ensures
            final(self)@ == (DebView {
                debian_version_ok: supported_version(body@),
                findings: old(self)@.findings + said_if(
                    !supported_version(body@),
                    deb_found(
                        Some("debian-binary".spec_bytes()),
                        PackageFindingCode::InvalidVersionStamp,
                        "debian-binary member lacks a supported 2.x version line"@,
                    ),
                ),
                ..old(self)@
            }),
    {
        let supported: bool = starts_with(body, "2.".as_bytes()) && contains_byte(body, 0x0a);
        self.debian_version_ok = supported;
        self.say_if(
            !supported,
            Some("debian-binary".as_bytes()),
            PackageFindingCode::InvalidVersionStamp,
            "debian-binary member lacks a supported 2.x version line",
        );
    }

    /// Ends a nested archive, of which the filter is given.
    pub fn finish_nested(&mut self, role: Role, filter: Option<FilterId>)
        ensures
            final(self)@ == (DebView {
                control_compression: if role == Role::Control {
                    filter
                } else {
                    old(self)@.control_compression
                },
                data_compression: if role == Role::Data {
                    filter
                } else {
                    old(self)@.data_compression
                },
                ..old(self)@
            }),
    {
        match role {
            Role::Control => {
                self.control_compression = filter;
            },
            Role::Data => {
                self.data_compression = filter;
            },
            _ => {},
        }
    }

    /// The container is broken, with an error in words.
    pub fn break_container(&mut self, words: &str)
        ensures
            final(self)@ == (DebView {
                container_readable: false,
                findings: old(self)@.findings + seq![
                    deb_found(
                        None,
                        PackageFindingCode::ContainerUnreadable,
                        "cannot read .deb ar container: "@ + words@,
                    ),
                ],
                ..old(self)@
            }),
    {
        self.container_readable = false;
        let detail = join("cannot read .deb ar container: ", words);
        self.say_if(true, None, PackageFindingCode::ContainerUnreadable, detail.as_str());
    }

    /// The verdict.
    pub fn finalize(self) -> (validation: DebValidation)
        ensures
            findings_view(validation.findings@) == self@.findings + self@.missing_findings(),
            validation.status == (SupportStatus {
                container_readable: self.container_readable,
                profile_valid: self@.is_valid(),
            }),
            validation.data_compression == self.data_compression,
            validation.control_compression == self.control_compression,
    {
        let ghost before = self@;
        let mut state = self;
        if state.container_readable {
            let unreported: bool = !state.seen_debian && !state.debian_reported;
            state.say_if(
                unreported,
                None,
                PackageFindingCode::MissingDebianBinary,
                "package has no debian-binary member",
            );
            let control: bool = state.seen_control;
            state.say_if(
                !control,
                None,
                PackageFindingCode::MissingRequiredMember,
                "package has no control.tar member",
            );
            let data: bool = state.seen_data;
            state.say_if(
                !data,
                None,
                PackageFindingCode::MissingRequiredMember,
                "package has no data.tar member",
            );
        }
        proof {
            assert(state@.findings =~= before.findings + before.missing_findings());
        }
        let blocking: bool = has_blocking(state.findings.as_slice());
        let valid: bool = state.container_readable && !blocking && state.seen_debian
            && state.debian_version_ok && state.seen_control && state.seen_data;
        DebValidation {
            status: SupportStatus::new(state.container_readable, valid),
            findings: state.findings,
            data_compression: state.data_compression,
            control_compression: state.control_compression,
        }
    }
}

/// The beginning of `debian-binary`.
#[derive(Debug)]
pub struct DebianBinaryMember {
    pub body: Vec<u8>,
}

impl DebianBinaryMember {
    /// No more is kept than is needed.
    pub open spec fn wf(&self) -> bool {
        self.body@.len() <= VERSION_CAP
    }

    /// Nothing has come yet.
    pub fn new() -> (member: Self)
        ensures
            member.wf(),
            member.body@.len() == 0,
    {
        DebianBinaryMember { body: Vec::new() }
    }

    /// Takes a chunk, as far as there is room.
    pub fn feed(&mut self, bytes: &[u8])
        requires
            old(self).wf(),
        ensures
            final(self).wf(),
            final(self).body@ == if old(self).body@.len() + bytes@.len() <= VERSION_CAP {
                old(self).body@ + bytes@
            } else {
                (old(self).body@ + bytes@).take(VERSION_CAP as int)
            },
    {
        let room: usize = VERSION_CAP - self.body.len();
        let taken: usize = if bytes.len() < room {
            bytes.len()
        } else {
            room
        };
        let ghost before = self.body@;
        let head = &bytes[0..taken];
        self.body.extend_from_slice(head);
        proof {
            assert(head@ =~= bytes@.take(taken as int));
            assert(self.body@ =~= before + head@);
            if before.len() + bytes@.len() > VERSION_CAP {
                assert(self.body@ =~= (before + bytes@).take(VERSION_CAP as int));
            } else {
                assert(head@ =~= bytes@);
            }
        }
    }
}

/// The verdict on a package.
#[derive(Clone, Debug)]
pub struct DebValidation {
    pub status: SupportStatus,
    pub findings: Vec<PackageFinding>,
    pub data_compression: Option<FilterId>,
    pub control_compression: Option<FilterId>,
}

impl DebValidation {
    /// Whether the container could be read and the package keeps to its profile.
    pub fn status(&self) -> (status: SupportStatus)
        ensures
            status == self.status,
    {
        self.status
    }

    /// Whether the container could be read.
    pub fn container_readable(&self) -> (readable: bool)
        ensures
            readable == self.status.container_readable,
    {
        self.status.container_readable()
    }

    /// Whether the package keeps to the profile.
    pub fn profile_valid(&self) -> (valid: bool)
        ensures
            valid == self.status.profile_valid,
    {
        self.status.profile_valid()
    }

    /// The findings, in the order in which they were made.
    pub fn findings(&self) -> (findings: &[PackageFinding])
        ensures
            findings@ == self.findings@,
    {
        self.findings.as_slice()
    }

    /// The filter of `data.tar`.
    pub fn data_compression(&self) -> (filter: Option<FilterId>)
        ensures
            filter == self.data_compression,
    {
        self.data_compression
    }

    /// The filter of `control.tar`.
    pub fn control_compression(&self) -> (filter: Option<FilterId>)
        ensures
            filter == self.control_compression,
    {
        self.control_compression
    }

    /// Whether a finding has a code.
    pub fn has_code(&self, code: PackageFindingCode) -> (found: bool)
        ensures
            found == exists|i: int|
                0 <= i < self.findings@.len() && (#[trigger] self.findings@[i]).code == code,
    {
        holds_code(self.findings.as_slice(), code)
    }
}

} // verus!
