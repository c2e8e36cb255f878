//! Plain messages exchanged with clients and operators: requests, responses,
//! health reports and token claims. They carry data only.

use vstd::prelude::*;
use crate::models::VehicleType;

verus! {

/// Version of the client-server protocol.
pub const PROTOCOL_VERSION: &'static str = "1.0.0";

/// Default listening port.
pub const DEFAULT_PORT: u16 = 7878;

/// Errors shared by server and client.
#[derive(Clone, Debug, PartialEq, Eq)]
pub enum ParkHubError {
    InvalidCredentials,
    TokenExpired,
    Unauthorized,
    UserNotFound(String),
    SlotNotAvailable,
    BookingNotFound(String),
    BookingConflict,
    InvalidBookingTime(String),
    Database(String),
    Connection(String),
    ServerNotFound,
    ProtocolMismatch { expected: String, actual: String },
    Config(String),
    ServerNotConfigured,
    NotFound(String),
    InvalidInput(String),
    Internal(String),
}

/// Preferences that the server keeps for a user.
#[derive(Clone, Debug, Default)]
pub struct UserPreferences {
    pub default_duration_minutes: Option<i32>,
    pub favorite_slots: Vec<String>,
    pub notifications_enabled: bool,
    pub email_reminders: bool,
    pub language: String,
    pub theme: String,
}

/// Opening and closing time of one day, as text.
#[derive(Clone, Debug)]
pub struct DayHours {
    pub open: String,
    pub close: String,
}

/// Weekly opening hours of a lot.
#[derive(Clone, Debug)]
pub struct OperatingHours {
    pub is_24h: bool,
    pub monday: Option<DayHours>,
    pub tuesday: Option<DayHours>,
    pub wednesday: Option<DayHours>,
    pub thursday: Option<DayHours>,
    pub friday: Option<DayHours>,
    pub saturday: Option<DayHours>,
    pub sunday: Option<DayHours>,
}

/// A vehicle of a user.
#[derive(Clone, Debug)]
pub struct Vehicle {
    pub id: Option<String>,
    pub license_plate: String,
    pub make: Option<String>,
    pub model: Option<String>,
    pub color: Option<String>,
    pub vehicle_type: VehicleType,
}

/// A request to extend a booking.
#[derive(Clone, Copy, Debug)]
pub struct ExtendBookingRequest {
    pub additional_minutes: i32,
}

/// Pagination metadata of a response.
#[derive(Clone, Copy, Debug)]
pub struct ResponseMeta {
    pub page: Option<i32>,
    pub per_page: Option<i32>,
    pub total: Option<i32>,
    pub total_pages: Option<i32>,
}

/// One page of items.
#[derive(Clone, Debug)]
pub struct PaginatedResponse<T> {
    pub items: Vec<T>,
    pub page: i32,
    pub per_page: i32,
    pub total: i32,
    pub total_pages: i32,
}

/// Requested page and page size.
#[derive(Clone, Copy, Debug)]
pub struct PaginationParams {
    pub page: i32,
    pub per_page: i32,
}

/// The page asked for when none is given.
pub fn default_page() -> (r: i32)
    ensures
        r == 1,
{
    1
}

/// The page size used when none is given.
pub fn default_per_page() -> (r: i32)
    ensures
        r == 20,
{
    20
}

/// Credentials of a login.
#[derive(Clone, Debug)]
pub struct LoginRequest {
    pub username: String,
    pub password: String,
}

/// A request for fresh tokens.
#[derive(Clone, Debug)]
pub struct RefreshTokenRequest {
    pub refresh_token: String,
}

/// A request to open an account.
#[derive(Clone, Debug)]
pub struct RegisterRequest {
    pub email: String,
    pub password: String,
    pub name: String,
}

/// What a server announces of itself for discovery.
#[derive(Clone, Debug)]
pub struct ServerInfo {
    pub name: String,
    pub version: String,
    pub protocol_version: String,
    pub host: String,
    pub port: u16,
    pub tls: bool,
    pub fingerprint: Option<String>,
}

/// A client's greeting.
#[derive(Clone, Debug)]
pub struct HandshakeRequest {
    pub client_version: String,
    pub protocol_version: String,
}

/// The server's answer to a greeting.
#[derive(Clone, Debug)]
pub struct HandshakeResponse {
    pub server_name: String,
    pub server_version: String,
    pub protocol_version: String,
    pub requires_auth: bool,
    pub certificate_fingerprint: String,
}

/// Configuration of a server.
#[derive(Clone, Debug)]
pub struct ServerConfig {
    pub server_name: String,
    pub port: u16,
    pub enable_tls: bool,
    pub enable_mdns: bool,
    pub admin_username: String,
    pub admin_password_hash: String,
}

/// Running figures of a server.
#[derive(Clone, Copy, Debug)]
pub struct ServerStatus {
    pub uptime_seconds: u64,
    pub connected_clients: u32,
    pub total_users: u32,
    pub total_bookings: u32,
    pub database_size_bytes: u64,
}

/// Overall health.
#[derive(Clone, Copy, Debug, PartialEq, Eq, Structural)]
pub enum HealthStatus {
    Healthy,
    Degraded,
    Unhealthy,
}

/// Health of one component.
#[derive(Clone, Debug)]
pub struct ComponentHealth {
    pub name: String,
    pub status: HealthStatus,
    pub message: Option<String>,
    pub response_time_ms: Option<u64>,
}

/// A health report.
#[derive(Clone, Debug)]
pub struct HealthResponse {
    pub status: HealthStatus,
    pub version: String,
    pub uptime_seconds: u64,
    pub checks: Vec<ComponentHealth>,
}

/// A readiness report.
#[derive(Clone, Debug)]
pub struct ReadyResponse {
    pub ready: bool,
    pub reason: Option<String>,
}

/// Kind of a signed token.
#[derive(Clone, Copy, Debug, PartialEq, Eq, Structural)]
pub enum TokenType {
    Access,
    Refresh,
}

/// Claims of a signed token.
#[derive(Clone, Debug)]
pub struct Claims {
    pub sub: String,
    pub username: String,
    pub role: String,
    pub iat: i64,
    pub exp: i64,
    pub iss: String,
    pub token_type: TokenType,
}

/// An access token with its refresh token.
#[derive(Clone, Debug)]
pub struct TokenPair {
    pub access_token: String,
    pub refresh_token: String,
    pub token_type: String,
    pub expires_in: i64,
}

/// Settings of signed tokens.
#[derive(Clone, Debug)]
pub struct JwtConfig {
    pub secret: String,
    pub access_token_expiry_hours: i64,
    pub refresh_token_expiry_days: i64,
    pub issuer: String,
}

} // verus!
