//! The plain data records that the service reads and writes: users,
//! teams, matches, scouting submissions, and the wire-format shapes of
//! the inbound and outbound messages.  The transport and persistence
//! layers around the library convert between these and their own types.

use std::collections::HashMap;

use vstd::prelude::*;

use crate::pool::Alliance;

verus! {

/// One registered scout or admin account.
#[derive(Debug, Clone)]
pub struct User {
    pub id: String,
    pub name: String,
    pub is_notify: bool,
    pub is_admin: bool,
    pub endpoint: Option<String>,
    pub p256dh: Option<String>,
    pub auth: Option<String>,
    pub access_token: String,
}

impl User {
    /// Builds a user record from its parts, unchanged.
    pub fn new(
        id: String,
        name: String,
        is_notify: bool,
        is_admin: bool,
        endpoint: Option<String>,
        p256dh: Option<String>,
        auth: Option<String>,
        access_token: String,
    ) -> (u: User)
        ensures
            u.id@ == id@,
            u.name@ == name@,
            u.is_notify == is_notify,
            u.is_admin == is_admin,
            u.endpoint == endpoint,
            u.p256dh == p256dh,
            u.auth == auth,
            u.access_token@ == access_token@,
    {
        User { id, name, is_notify, is_admin, endpoint, p256dh, auth, access_token }
    }
}

/// The older in-memory queue shape: match keys, manual assignments by
/// access token, and flat team and scout lists.
#[derive(Debug, Clone)]
pub struct RoboQueue {
    pub match_keys: Vec<String>,
    pub assigned: HashMap<String, String>,
    pub robots: Vec<String>,
    pub scouts: Vec<String>,
}

/// The OAuth callback payload: the one-time code.
#[derive(Debug)]
pub struct AuthRequest {
    pub code: String,
}

/// The claims read from a sign-in token.
#[derive(Debug)]
pub struct SlackClaims {
    pub exp: i64,
    pub name: String,
}

/// Which scout covers which team at one event.
#[derive(Debug, Clone)]
pub struct ScoutEventTeam {
    pub event_key: String,
    pub team_key: String,
    pub scout_id: String,
}

/// One submitted match-scouting record.
#[derive(Debug, Clone)]
pub struct TeamMatch {
    pub id: i32,
    pub match_key: String,
    pub team_key: String,
    pub is_fielded: bool,
    pub is_leave_start: bool,
    pub auto_speaker_succeed: i16,
    pub auto_speaker_missed: i16,
    pub auto_amp_succeed: i16,
    pub auto_amp_missed: i16,
    pub auto_piece_succeed: i16,
    pub auto_piece_missed: i16,
    pub tele_speaker_succeed: i16,
    pub tele_speaker_missed: i16,
    pub tele_amp_succeed: i16,
    pub tele_amp_missed: i16,
    pub trap_succeed: bool,
    pub trap_missed: bool,
    pub stage: Stage,
    pub skill: i16,
    pub notes: String,
    pub is_broke: bool,
    pub is_died: bool,
    pub scout_id: String,
}

/// One competing team.
#[derive(Debug, Clone)]
pub struct Team {
    pub team_key: String,
    pub nickname: String,
}

/// One match of one event.
#[derive(Debug, Clone)]
pub struct Match {
    pub match_key: String,
    pub event_key: String,
}

/// A recording of one match.
#[derive(Debug, Clone)]
pub struct Video {
    pub match_key: String,
    pub url: String,
}

/// One submitted pit-scouting record.
#[derive(Debug, Clone)]
pub struct TeamEvent {
    pub id: i64,
    pub team_key: String,
    pub event_key: String,
    pub width: i16,
    pub length: i16,
    pub is_short: bool,
    pub is_camera: bool,
    pub drivetrain: DriveTrain,
    pub is_ground_intake: bool,
    pub is_chute_intake: bool,
    pub polish: Polish,
    pub scout_id: String,
}

/// One uploaded robot photo.
#[derive(Debug, Clone)]
pub struct Image {
    pub id: i64,
    pub event_key: String,
    pub team_key: String,
    pub url: String,
    pub scout_id: i64,
}

/// Which event is live, and where in its schedule it stands.
#[derive(Debug, Clone)]
pub struct EventState {
    pub event_key: String,
    pub next_match: Option<String>,
    pub last_match: Option<String>,
}

/// How a robot ended the match's final phase.
#[derive(Debug, Clone, Copy, PartialEq, Eq, Structural)]
pub enum Stage {
    OnState,
    Park,
    NotAttempted,
    Failed,
}

impl Default for Stage {
    /// An unreported final phase counts as not attempted.
    fn default() -> (s: Stage)
        ensures
            s == Stage::NotAttempted,
    {
        Stage::NotAttempted
    }
}

/// A robot's drive train kind.
#[derive(Debug, Clone, Copy, PartialEq, Eq, Structural)]
pub enum DriveTrain {
    Swerve,
    Tank,
    Other,
}

/// A coarse build-quality grade.
#[derive(Debug, Clone, Copy, PartialEq, Eq, Structural)]
pub enum Polish {
    One,
    Two,
    Three,
    Four,
    Five,
}

/// The reply to a scout that asked for a robot over the request channel.
#[derive(Debug, Clone)]
pub struct ScoutResponse {
    pub team_key: String,
    pub color: Alliance,
}

/// An admin's automatic match declaration, as it arrives.
#[derive(Debug, Clone)]
pub struct NewMatchAuto {
    pub red_teams: Vec<String>,
    pub blue_teams: Vec<String>,
    pub match_key: String,
}

/// An admin's manual match declaration, as it arrives.
#[derive(Debug, Clone)]
pub struct NewMatchManual {
    pub red_teams: Vec<String>,
    pub blue_teams: Vec<String>,
    pub red_scouts: Vec<String>,
    pub blue_scouts: Vec<String>,
    pub match_key: String,
}

/// A manual match declaration over the request channel.
#[derive(Debug, Clone)]
pub struct ManualMatch {
    pub red_robots: Vec<String>,
    pub blue_robots: Vec<String>,
    pub red_scouts: Vec<String>,
    pub blue_scouts: Vec<String>,
    pub match_key: String,
}

/// An admin's request to open a new event.
#[derive(Debug, Clone)]
pub struct NewEvent {
    pub code: String,
    pub event_key: String,
    pub twitch_link: Option<String>,
}

/// An admin's request to change one user's permissions.
#[derive(Debug, Clone)]
pub struct UserPerm {
    pub admin: bool,
    pub id: String,
}

/// What the admin dashboard is told when an assignment is made.
#[derive(Debug, Clone)]
pub struct AdminRet {
    pub team_key: String,
    pub scout_name: String,
    pub match_key: String,
}

/// The direct message handing one team of one match to a scout.
#[derive(Debug, Clone)]
pub struct TeamMatchToScouts {
    pub team: String,
    pub match_key: String,
}

/// One frame of the one-way event stream.
#[derive(Debug, Clone)]
pub enum SseReturn {
    QueuedScout(String),
    DeQueuedScout(String),
    LoggedInScout(String),
    TeamMatchScouted { scout_name: String, team_key: String, match_key: String },
}

/// The share of the declared matches that one scout has covered, as the
/// admin reporting view shows it: the floor of `count / total` in
/// percent, capped at one hundred.
pub fn scouted_percent(count: u64, total: u64) -> (p: u64)
    requires
        total > 0,
        count <= u64::MAX / 100,
    ensures
        p as int == vstd::math::min(count as int * 100 / total as int, 100),
{
    let scaled = count * 100 / total;
    if scaled > 100 {
        100
    } else {
        scaled
    }
}

/// The public half of the push-notification key pair.
#[derive(Debug, Clone)]
pub struct VapidKey {
    pub public_key: String,
}

/// A browser's push-notification registration.
#[derive(Debug, Clone)]
pub struct WebPush {
    pub endpoint: String,
    pub keys: Keys,
}

/// The client keys of a push-notification registration.
#[derive(Debug, Clone)]
pub struct Keys {
    pub auth: String,
    pub p256dh: String,
}

} // verus!
