//! The records of the dandanplay web API that carry no floating-point values: responses,
//! requests and the items they hold, field for field as the API names them.

use vstd::prelude::*;

verus! {

#[derive(Clone, Debug)]
pub struct ResponseBase {
    /// 错误代码，0表示没有发生错误，非0表示有错误，详细信息会包含在errorMessage属性中
    pub error_code: Option<i32>,
    /// 接口是否调用成功
    pub success: Option<bool>,
    /// 当发生错误时，说明错误具体原因
    pub error_message: Option<String>,
    /// 当参数校验失败时，提供可供调用方定位问题字段的补充信息。
    pub error_detail: Option<String>,
}

#[derive(Clone, Debug)]
pub struct BangumiSeasonListResponse {
    pub response_base: ResponseBase,
    /// 番剧季度列表
    pub seasons: Option<Vec<BangumiSeason>>,
}

#[derive(Clone, Debug)]
pub struct BangumiSeason {
    /// 年份
    pub year: Option<i32>,
    /// 月份
    pub month: Option<i32>,
    /// 季度名称
    pub season_name: Option<String>,
}

#[derive(Clone, Debug)]
pub struct BangumiQueueIntroResponseV2 {
    pub response_base: ResponseBase,
    /// 是否有更多数据可以展示（显示界面上的“更多”按钮）
    pub has_more: Option<bool>,
    /// 未看剧集列表
    pub bangumi_list: Option<Vec<BangumiQueueIntroV2>>,
}

#[derive(Clone, Debug)]
pub struct BangumiQueueIntroV2 {
    /// 作品编号
    pub anime_id: Option<i64>,
    /// 作品标题
    pub anime_title: Option<String>,
    /// 最新一集的剧集标题
    pub episode_title: Option<String>,
    /// 剧集上映日期（无小时分钟，当地时间）
    pub air_date: Option<String>,
    /// 海报图片地址
    pub image_url: Option<String>,
    /// 未看状态的说明，如“今天更新”，“昨天更新”，“有多集未看”等
    pub description: Option<String>,
    /// 番剧是否在连载中
    pub is_on_air: Option<bool>,
}

#[derive(Clone, Debug)]
pub struct BangumiQueueDetailsResponseV2 {
    pub response_base: ResponseBase,
    /// 未看番剧剧集列表
    pub bangumi_list: Option<Vec<BangumiQueueDetailsV2>>,
    /// 已关注但从未看过的番剧列表
    pub unwatched_bangumi_list: Option<Vec<BangumiQueueDetailsV2>>,
}

#[derive(Clone, Debug)]
pub struct BangumiQueueDetailsV2 {
    /// 作品编号
    pub anime_id: Option<i64>,
    /// 作品标题
    pub anime_title: Option<String>,
    /// 是否正在连载中
    pub is_on_air: Option<bool>,
    /// 海报图片地址
    pub image_url: Option<String>,
    /// 搜索资源的关键词
    pub search_keyword: Option<String>,
    /// 上次观看时间（null表示尚未看过）
    pub last_watched: Option<String>,
    /// 未看剧集的列表
    pub episodes: Option<Vec<BangumiQueueEpisodeV2>>,
}

#[derive(Clone, Debug)]
pub struct BangumiQueueEpisodeV2 {
    /// 剧集编号（弹幕库编号）
    pub episode_id: Option<i64>,
    /// 剧集标题
    pub episode_title: Option<String>,
    /// 上映日期（无小时分钟，当地时间），可能为null
    pub air_date: Option<String>,
}

#[derive(Clone, Copy, Debug, PartialEq, Eq, Structural)]
pub enum AnimeType {
    Tvseries,
    Tvspecial,
    Ova,
    Movie,
    Musicvideo,
    Web,
    Other,
    Jpmovie,
    Jpdrama,
    Unknown,
    Tmdbtv,
    Tmdbmovie,
}

#[derive(Clone, Debug)]
pub struct BangumiTitle {
    /// 语言
    pub language: Option<String>,
    /// 标题
    pub title: Option<String>,
}

#[derive(Clone, Debug)]
pub struct BangumiEpisodeSeason {
    /// 季度ID
    pub id: Option<String>,
    /// 上映日期
    pub air_date: Option<String>,
    /// 季度名称
    pub name: Option<String>,
    /// 剧集数量
    pub episode_count: Option<i32>,
    /// 季度简介
    pub summary: Option<String>,
}

#[derive(Clone, Debug)]
pub struct BangumiEpisode {
    /// 季度ID（如果为空表示只有一个季度）
    pub season_id: Option<String>,
    /// 剧集ID（弹幕库编号）
    pub episode_id: Option<i64>,
    /// 剧集完整标题
    pub episode_title: Option<String>,
    /// 剧集短标题（可以用来排序，非纯数字，可能包含字母）
    pub episode_number: Option<String>,
    /// 上次观看时间（服务器时间，即北京时间）
    pub last_watched: Option<String>,
    /// 本集上映时间（当地时间）
    pub air_date: Option<String>,
}

#[derive(Clone, Copy, Debug, PartialEq, Eq, Structural)]
pub enum FavoriteStatus {
    Favorited,
    Finished,
    Abandoned,
}

#[derive(Clone, Debug)]
pub struct BangumiTag {
    /// 标签编号
    pub id: Option<i32>,
    /// 标签内容
    pub name: Option<String>,
    /// 观众为此标签+1次数
    pub count: Option<i32>,
}

#[derive(Clone, Debug)]
pub struct BangumiOnlineDatabase {
    /// 网站名称
    pub name: Option<String>,
    /// 网址
    pub url: Option<String>,
}

#[derive(Clone, Debug)]
pub struct BangumiTrailer {
    /// 视频编号
    pub id: Option<i32>,
    /// 视频播放页地址
    pub url: Option<String>,
    /// 视频标题
    pub title: Option<String>,
    /// 视频封面
    pub image_url: Option<String>,
    /// 发布时间
    pub date: Option<String>,
}

#[derive(Clone, Debug)]
pub struct BangumiCommentsResponse {
    pub response_base: ResponseBase,
    /// 当前页返回的评论数量
    pub count: Option<i32>,
    /// 是否还有更多评论可以获取
    pub has_more: Option<bool>,
    /// 评论列表
    pub comments: Option<Vec<BangumiComment>>,
}

#[derive(Clone, Debug)]
pub struct BangumiComment {
    /// 评论编号
    pub id: Option<i32>,
    /// 弹弹play 用户ID。为 0 表示非本平台用户
    pub user_id: Option<i32>,
    /// 外部平台用户ID/主页标识
    pub external_user_id: Option<String>,
    /// 用户名
    pub user_name: Option<String>,
    /// 用户头像地址
    pub image_url: Option<String>,
    /// 评论来源，例如 Bangumi
    pub source: Option<String>,
    /// 评论内容
    pub text: Option<String>,
    /// 用户评分（0-10）
    pub rating: Option<i32>,
    /// 记录更新时间
    pub updated_time: Option<String>,
}
/// 弹幕列表

#[derive(Clone, Debug)]
pub struct CommentResponseV2 {
    /// 弹幕数量
    pub count: Option<i32>,
    /// 弹幕列表
    pub comments: Option<Vec<CommentData>>,
}

#[derive(Clone, Debug)]
pub struct CommentData {
    /// 弹幕ID
    pub cid: Option<i64>,
    /// 弹幕参数（出现时间,模式,颜色,用户ID）
    pub p: Option<String>,
    /// 弹幕内容
    pub m: Option<String>,
}

#[derive(Clone, Debug)]
pub struct SendCommentResponseV2 {
    pub response_base: ResponseBase,
    /// 此弹幕库中的弹幕ID
    pub cid: Option<i64>,
}

#[derive(Clone, Debug)]
pub struct UserAddFavoriteResponse {
    pub response_base: ResponseBase,
}

#[derive(Clone, Debug)]
pub struct UserAddFavoriteRequest {
    /// 动画作品编号
    pub anime_id: Option<i64>,
    /// 设定或刷新当前的关注状态。设置为null代表不修改当前状态。
    pub favorite_status: Option<FavoriteStatus>,
    /// 给作品打分（1-10分），0代表不修改当前分数
    pub rating: Option<i32>,
    /// 给作品添加评论，最长为500个字符。当值为null或空字符串时将不修改当前的值。 如果希望清空所有文字，请传入至少一个空格。
    pub comment: Option<String>,
}

#[derive(Clone, Debug)]
pub struct UserDeleteFavoriteResponse {
    pub response_base: ResponseBase,
}

#[derive(Clone, Debug)]
pub struct BannerPageItem {
    /// 公告ID
    pub id: Option<i32>,
    /// 标题
    pub title: Option<String>,
    /// 子标题、描述
    pub description: Option<String>,
    /// 落地页链接
    pub url: Option<String>,
    /// 图片地址
    pub image_url: Option<String>,
}

#[derive(Clone, Debug)]
pub struct BannerResponse {
    pub response_base: ResponseBase,
    /// 公告列表
    pub banners: Option<Vec<BannerPageItem>>,
}

#[derive(Clone, Debug)]
pub struct LoginResponse {
    pub response_base: ResponseBase,
    /// 该用户是否需要先注册弹弹play账号才可正常登录。当此值为true时表示用户使用了QQ微博等第三方登录但没有注册弹弹play账号。
    pub register_required: Option<bool>,
    /// 用户编号
    pub user_id: Option<i32>,
    /// 弹弹play用户名。如果用户使用第三方账号登录（如QQ微博）且没有关联弹弹play账号，此属性将为null
    pub user_name: Option<String>,
    /// 用户邮箱地址
    pub email: Option<String>,
    /// 旧API中使用的数字形式的token，仅为兼容性设置，不要在新代码中使用此属性
    pub legacy_token_number: Option<i32>,
    /// 字符串形式的JWT token。将来调用需要验证权限的接口时，需要在HTTP Authorization头中设置“Bearer token”。
    pub token: Option<String>,
    /// JWT token过期时间，默认为21天。如果是APP应用开发者账号使用自己的应用登录则为1年。
    pub token_expire_time: Option<String>,
    /// 用户注册来源类型
    pub user_type: Option<String>,
    /// 昵称
    pub screen_name: Option<String>,
    /// 头像图片的地址
    pub profile_image: Option<String>,
    /// 当前登录会话内应用权限列表，可以由此判断能否调用哪些API
    pub app_scope: Option<String>,
    /// 商品列表
    pub pay_configs: Option<Vec<PayConfig>>,
    /// 用户权益过期时间（全部为北京时间）
    pub privileges: Option<UserPrivileges>,
    /// 消息体验证码
    pub code: Option<String>,
    /// 当前时间戳
    pub ts: Option<i64>,
    /// 已关联的第三方账号信息（如 bangumi.tv 账号）
    pub linked_accounts: Option<LinkedAccounts>,
}

#[derive(Clone, Debug)]
pub struct PayConfig {
    /// 支付渠道（wechat,alipay）
    pub provider_id: Option<String>,
    /// 支付渠道名称（微信支付，支付宝）
    pub provider_name: Option<String>,
    /// 商品列表
    pub items: Option<Vec<PayConfigItem>>,
}

#[derive(Clone, Debug)]
pub struct PayConfigItem {
    /// 商品ID
    pub id: Option<String>,
    /// 商品名称（如：1个月会员）
    pub name: Option<String>,
    /// 商品价格（单位：分）
    pub price: Option<i32>,
    /// 货币单位（CNY）
    pub currency: Option<String>,
}
/// 用户各类权益到期时间

#[derive(Clone, Debug)]
pub struct UserPrivileges {
    /// 会员权益过期时间（北京时间）
    pub member: Option<String>,
    /// 弹弹play资源监视器权益过期时间（北京时间）
    pub resmonitor: Option<String>,
}

#[derive(Clone, Debug)]
pub struct LinkedAccounts {
    /// bangumi.tv 用户
    pub bangumi: Option<LinkedAccountInfo>,
}

#[derive(Clone, Debug)]
pub struct LinkedAccountInfo {
    /// bangumi.tv 用户ID
    pub user_id: Option<String>,
    /// bangumi.tv 用户名
    pub user_name: Option<String>,
    /// 显示名称（昵称）
    pub display: Option<String>,
    /// 用户头像URL
    pub avatar: Option<String>,
    /// 当前授权过期时间（北京时间）
    pub expires: Option<String>,
}
/// 请求用户登录

#[derive(Clone, Debug)]
pub struct LoginRequest {
    /// 弹弹play用户名
    pub user_name: String,
    /// 用户密码
    pub password: String,
    /// 客户端ID
    pub app_id: String,
    /// Unix时间戳：从协调世界时1970年1月1日0时0分0秒起至现在的总秒数，不考虑闰秒。
    pub unix_timestamp: Option<i64>,
    /// 通过参数计算得到的32位MD5值，不区分大小写。计算方法请参考接口说明。
    pub hash: String,
}

#[derive(Clone, Debug)]
pub struct MatchRequest {
    /// 视频文件名，不包含文件夹名称和扩展名，特殊字符需进行转义。
    pub file_name: Option<String>,
    /// 文件前16MB (16x1024x1024 Byte) 数据的32位MD5结果，不区分大小写。
    pub file_hash: Option<String>,
    /// 文件总长度，单位为Byte。
    pub file_size: Option<i64>,
    /// [可选]32位整数的视频时长，单位为秒。默认为0。
    pub video_duration: Option<i32>,
    /// [可选]匹配模式。
    pub match_mode: Option<MatchMode>,
}

#[derive(Clone, Copy, Debug, PartialEq, Eq, Structural)]
pub enum MatchMode {
    HashAndFileName,
    FileNameOnly,
    HashOnly,
}

#[derive(Clone, Debug)]
pub struct BatchMatchRequest {
    /// 匹配请求，列表中最多包括32个请求
    pub requests: Option<Vec<MatchRequest>>,
}

#[derive(Clone, Debug)]
pub struct UserPlayHistoryResponse {
    pub response_base: ResponseBase,
    pub play_history_animes: Option<Vec<UserPlayHistoryAnime>>,
}

#[derive(Clone, Debug)]
pub struct UserPlayHistoryAnime {
    pub anime_id: Option<i64>,
    pub anime_title: Option<String>,
    /// 作品类别
    pub anime_type: Option<AnimeType>,
    /// 类型描述
    pub type_description: Option<String>,
    pub image_url: Option<String>,
    pub is_on_air: Option<bool>,
    pub episodes: Option<Vec<BangumiEpisode>>,
}

#[derive(Clone, Debug)]
pub struct UserAddPlayHistoryResponse {
    pub response_base: ResponseBase,
}

#[derive(Clone, Debug)]
pub struct UserAddPlayHistoryRequest {
    /// 弹幕库编号列表（最多100项，必须都属于同一作品）
    pub episode_id_list: Option<Vec<i64>>,
    /// 关注此作品（弹幕库编号列表中必须只有一项）
    pub add_to_favorite: Option<bool>,
    /// 给此剧集打分（弹幕库编号列表中必须只有一项）。范围为1-10分，0代表不修改当前评分。
    pub rating: Option<i32>,
}

#[derive(Clone, Debug)]
pub struct RegisterRequestV2 {
    /// 客户端ID
    pub app_id: String,
    /// 用户名。只能包含英文或数字，长度为5-20位，首位不能为数字。
    pub user_name: String,
    /// 密码。长度为5到20位之间。
    pub password: String,
    /// 备用邮箱（找回密码用）。长度不能超过50个字符。
    pub email: String,
    /// 昵称。长度不能超过50个字符。
    pub screen_name: String,
    /// Unix时间戳：从协调世界时1970年1月1日0时0分0秒起至现在的总秒数，不考虑闰秒。
    pub unix_timestamp: Option<i64>,
    /// 通过参数计算得到的32位MD5值，不区分大小写。计算方法请参考接口说明。
    pub hash: String,
}

#[derive(Clone, Debug)]
pub struct ResetPasswordResponseV2 {
    pub response_base: ResponseBase,
}

#[derive(Clone, Debug)]
pub struct ResetPasswordRequestV2 {
    /// 应用ID
    pub app_id: String,
    /// 用户名
    pub user_name: String,
    /// 注册此用户时填写的备用邮箱
    pub email: String,
    /// Unix时间戳：从协调世界时1970年1月1日0时0分0秒起至现在的总秒数，不考虑闰秒。
    pub unix_timestamp: Option<i64>,
    /// 通过参数计算得到的32位MD5值，不区分大小写。计算方法请参考接口说明。
    pub hash: String,
}

#[derive(Clone, Debug)]
pub struct FindMyIdResponse {
    pub response_base: ResponseBase,
}

#[derive(Clone, Debug)]
pub struct FindMyIdRequestV2 {
    /// 应用ID
    pub app_id: String,
    /// 注册此用户时填写的备用邮箱
    pub email: String,
    /// Unix时间戳：从协调世界时1970年1月1日0时0分0秒起至现在的总秒数，不考虑闰秒。
    pub unix_timestamp: Option<i64>,
    /// 通过参数计算得到的32位MD5值，不区分大小写。计算方法请参考接口说明。
    pub hash: String,
}

#[derive(Clone, Debug)]
pub struct SearchEpisodesResponse {
    pub response_base: ResponseBase,
    /// 是否有更多未显示的搜索结果。当返回的搜索结果过多时此值为`true`
    pub has_more: Option<bool>,
    /// 搜索结果（作品信息）列表
    pub animes: Option<Vec<SearchEpisodesAnime>>,
}

#[derive(Clone, Debug)]
pub struct SearchEpisodesAnime {
    /// 作品编号
    pub anime_id: Option<i64>,
    /// 作品标题
    pub anime_title: Option<String>,
    /// 作品类型
    pub anime_type: Option<AnimeType>,
    /// 类型描述
    pub type_description: Option<String>,
    /// 此作品的剧集列表
    pub episodes: Option<Vec<SearchEpisodeDetails>>,
}

#[derive(Clone, Debug)]
pub struct SearchEpisodeDetails {
    /// 剧集ID（弹幕库编号）
    pub episode_id: Option<i64>,
    /// 剧集标题
    pub episode_title: Option<String>,
}

#[derive(Clone, Debug)]
pub struct SearchAdvancedConfigResponse {
    pub response_base: ResponseBase,
    /// 类型列表
    pub types: Option<Vec<ConfigKey>>,
    /// 可用标签列表
    pub tags: Option<Vec<ConfigKey>>,
    /// 排序依据
    pub sorts: Option<Vec<ConfigKey>>,
    /// 搜索允许的最早年份
    pub min_year: Option<i32>,
    /// 搜索允许的最晚年份
    pub max_year: Option<i32>,
}

#[derive(Clone, Debug)]
pub struct ConfigKey {
    /// 搜索中使用的值
    pub key: Option<i32>,
    /// 用户界面上显示的文字
    pub value: Option<String>,
}

#[derive(Clone, Debug)]
pub struct TrendingSummary {
    /// 榜单标题
    pub title: Option<String>,
    /// 榜单类型。hot=热播榜，rising=飙升榜，new-anime-hot=新番热播榜
    pub ranking_type: Option<String>,
    /// 统计周期。week=周，month=月，quarter=季度，season=季度新番，year=年度新番
    pub period: Option<String>,
    /// 榜单范围。all=全站，current-season=本季新番，previous-season=上一季度新番，current-year=今年新番
    pub scope: Option<String>,
    /// 当前统计开始日期（服务器时区）
    pub date_from: Option<String>,
    /// 当前统计结束日期（服务器时区）
    pub date_to: Option<String>,
    /// 对比统计开始日期（仅飙升榜有效）
    pub compare_date_from: Option<String>,
    /// 对比统计结束日期（仅飙升榜有效）
    pub compare_date_to: Option<String>,
    /// 当前可用的最新完整数据日期
    pub latest_data_date: Option<String>,
}

#[derive(Clone, Debug)]
pub struct UserUpdateProfileResponseV2 {
    pub response_base: ResponseBase,
    pub update_screen_name: Option<String>,
    pub update_profile_image: Option<String>,
}

#[derive(Clone, Debug)]
pub struct UserUpdatePasswordRequest {
    /// 旧密码（5-20位）
    pub old_password: String,
    /// 新密码（5-20位）
    pub new_password: String,
}

#[derive(Clone, Debug)]
pub struct UserUpdateProfileRequest {
    /// 用户新的昵称（留空将不修改昵称）
    pub screen_name: Option<String>,
    /// 用户头像图片使用Base64编码后的数据（jpg格式，长度不能超过1MB）。留空将不修改头像图片
    pub profile_image_base64: Option<String>,
}

#[derive(Clone, Debug)]
pub struct UserUpdateEmailRequest {
    /// 当前的关联邮箱地址
    pub old_email: String,
    /// 新的关联邮箱地址
    pub new_email: String,
}

} // verus!
