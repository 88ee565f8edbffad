//! Application configuration and its defaults.

use vstd::prelude::*;
use crate::text::string_from;

verus! {

/// Application name and environment.
#[derive(Debug, Clone)]
pub struct AppConfig {
    pub name: String,
    pub env: String,
}

impl Default for AppConfig {
    fn default() -> (r: Self)
        ensures
            r.name@ == "adapto_app"@,
            r.env@ == "development"@,
    {
        AppConfig {
            name: string_from("adapto_app"),
            env: string_from("development"),
        }
    }
}

/// Address the server listens on.
#[derive(Debug, Clone)]
pub struct ServerConfig {
    pub host: String,
    pub port: u16,
}

impl Default for ServerConfig {
    fn default() -> (r: Self)
        ensures
            r.host@ == "0.0.0.0"@,
            r.port == 3000,
    {
        ServerConfig {
            host: string_from("0.0.0.0"),
            port: 3000,
        }
    }
}

/// Where the database is.
#[derive(Debug, Clone)]
pub struct DatabaseConfig {
    pub url: String,
}

impl Default for DatabaseConfig {
    fn default() -> (r: Self)
        ensures
            r.url@ == "postgres://localhost/adapto_dev"@,
    {
        DatabaseConfig {
            url: string_from("postgres://localhost/adapto_dev"),
        }
    }
}

/// Request-security switches.
#[derive(Debug, Clone)]
pub struct SecurityConfig {
    pub csrf: bool,
    pub secure_cookies: bool,
    pub content_security_policy: String,
}

impl Default for SecurityConfig {
    fn default() -> (r: Self)
        ensures
            r.csrf == true,
            r.secure_cookies == true,
            r.content_security_policy@ == "strict"@,
    {
        SecurityConfig {
            csrf: true,
            secure_cookies: true,
            content_security_policy: string_from("strict"),
        }
    }
}

/// Live-session limits.
#[derive(Debug, Clone)]
pub struct LiveConfig {
    pub websocket_path: String,
    pub max_sessions_per_user: u32,
    pub event_rate_limit_per_second: u32,
}

impl Default for LiveConfig {
    fn default() -> (r: Self)
        ensures
            r.websocket_path@ == "/_adapto/live"@,
            r.max_sessions_per_user == 10,
            r.event_rate_limit_per_second == 20,
    {
        LiveConfig {
            websocket_path: string_from("/_adapto/live"),
            max_sessions_per_user: 10,
            event_rate_limit_per_second: 20,
        }
    }
}

/// How tenants are told apart.
#[derive(Debug, Clone)]
pub struct TenantConfig {
    pub mode: String,
    pub strategy: String,
}

impl Default for TenantConfig {
    fn default() -> (r: Self)
        ensures
            r.mode@ == "required"@,
            r.strategy@ == "subdomain"@,
    {
        TenantConfig {
            mode: string_from("required"),
            strategy: string_from("subdomain"),
        }
    }
}

/// Models used for assistance; neither is set by default.
#[derive(Debug, Clone)]
pub struct AiConfig {
    pub default_model: Option<String>,
    pub fallback_model: Option<String>,
}

impl Default for AiConfig {
    fn default() -> (r: Self)
        ensures
            r.default_model is None,
            r.fallback_model is None,
    {
        AiConfig { default_model: None, fallback_model: None }
    }
}

/// The whole configuration; every section defaults on its own.
#[derive(Debug, Clone)]
pub struct AdaptoConfig {
    pub app: AppConfig,
    pub server: ServerConfig,
    pub database: DatabaseConfig,
    pub security: SecurityConfig,
    pub live: LiveConfig,
    pub tenant: TenantConfig,
    pub ai: AiConfig,
}

impl Default for AdaptoConfig {
    fn default() -> (r: Self)
        ensures
            r.app.name@ == "adapto_app"@,
            r.app.env@ == "development"@,
            r.server.host@ == "0.0.0.0"@,
            r.server.port == 3000,
            r.database.url@ == "postgres://localhost/adapto_dev"@,
            r.security.csrf,
            r.security.secure_cookies,
            r.security.content_security_policy@ == "strict"@,
            r.live.websocket_path@ == "/_adapto/live"@,
            r.live.max_sessions_per_user == 10,
            r.live.event_rate_limit_per_second == 20,
            r.tenant.mode@ == "required"@,
            r.tenant.strategy@ == "subdomain"@,
            r.ai.default_model is None,
            r.ai.fallback_model is None,
    {
        AdaptoConfig {
            app: AppConfig::default(),
            server: ServerConfig::default(),
            database: DatabaseConfig::default(),
            security: SecurityConfig::default(),
            live: LiveConfig::default(),
            tenant: TenantConfig::default(),
            ai: AiConfig::default(),
        }
    }
}

} // verus!
